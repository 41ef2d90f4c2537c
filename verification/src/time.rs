//! Real-time clock reader. The hardware hands back seven raw
//! registers per poll; a sample counts only once two consecutive
//! polls agree on every field (defense against torn reads during an
//! in-flight clock update). The agreed sample is then normalized:
//! BCD decoding, 12-hour to 24-hour conversion, and the full year.

use vstd::prelude::*;

verus! {

/// One normalized wall-clock sample.
#[derive(Clone, Copy, PartialEq, Eq, Structural, Debug)]
pub struct Time {
    pub second: u8,
    pub minute: u8,
    pub hour: u8,
    pub day: u8,
    pub month: u8,
    pub year: u16,
    pub century: u8,
}

/// One raw poll of the seven clock registers, before any decoding.
#[derive(Clone, Copy, PartialEq, Eq, Structural, Debug)]
pub struct RawTime {
    pub second: u8,
    pub minute: u8,
    pub hour: u8,
    pub day: u8,
    pub month: u8,
    pub year: u8,
    pub century: u8,
}

/// Decodes one binary-coded-decimal register: the low nibble is the
/// ones digit, the high nibble the tens digit.
pub open spec fn bcd_spec(v: u8) -> u8 {
    ((v & 0x0F) + (v / 16) * 10) as u8
}

/// Decodes a BCD hour register: the low seven bits carry the BCD
/// hour, the top bit (the 12-hour-mode PM flag) is kept as it is.
pub open spec fn bcd_hour_spec(h: u8) -> u8 {
    ((h & 0x0F) + ((h & 0x70) / 16) * 10 + (h & 0x80)) as u8
}

/// The normalized sample for an agreed raw poll, given the clock's
/// status register B and the configured century register index:
/// fields are BCD-decoded unless status bit 0x04 flags binary
/// encoding; the hour is converted from 12-hour mode unless status
/// bit 0x02 flags 24-hour mode; the full year adds `century * 100`
/// when a century register is configured, else the fixed base 2000.
pub open spec fn normalize_spec(raw: RawTime, register_b: u8, century_register: u8) -> Time {
    let bcd = register_b & 0x04 == 0;
    let second = if bcd {
        bcd_spec(raw.second)
    } else {
        raw.second
    };
    let minute = if bcd {
        bcd_spec(raw.minute)
    } else {
        raw.minute
    };
    let hour0 = if bcd {
        bcd_hour_spec(raw.hour)
    } else {
        raw.hour
    };
    let day = if bcd {
        bcd_spec(raw.day)
    } else {
        raw.day
    };
    let month = if bcd {
        bcd_spec(raw.month)
    } else {
        raw.month
    };
    let year0 = if bcd {
        bcd_spec(raw.year)
    } else {
        raw.year
    };
    let century = if century_register != 0 && bcd {
        bcd_spec(raw.century)
    } else {
        raw.century
    };
    let hour = if register_b & 0x02 == 0 && hour0 & 0x80 != 0 {
        (((hour0 & 0x7F) + 12) % 24) as u8
    } else {
        hour0
    };
    let year = if century_register != 0 {
        (year0 + century * 100) as u16
    } else {
        (year0 + 2000) as u16
    };
    Time { second, minute, hour, day, month, year, century }
}

/// Decodes one BCD register.
fn bcd(v: u8) -> (r: u8)
    ensures
        r == bcd_spec(v),
{
    proof {
        assert(v & 0x0F <= 15) by (bit_vector);
        assert(v / 16 <= 15);
    }
    (v & 0x0F) + (v / 16) * 10
}

/// Decodes a BCD hour register, keeping the PM flag bit.
fn bcd_hour(h: u8) -> (r: u8)
    ensures
        r == bcd_hour_spec(h),
{
    proof {
        assert(h & 0x0F <= 15) by (bit_vector);
        assert(h & 0x70 <= 0x70) by (bit_vector);
        assert(h & 0x80 <= 0x80) by (bit_vector);
    }
    (h & 0x0F) + ((h & 0x70) / 16) * 10 + (h & 0x80)
}

/// Normalizes an agreed raw poll into a wall-clock sample.
pub fn normalize(raw: RawTime, register_b: u8, century_register: u8) -> (t: Time)
    ensures
        t == normalize_spec(raw, register_b, century_register),
{
    let bcd_mode = register_b & 0x04 == 0;
    let second = if bcd_mode {
        bcd(raw.second)
    } else {
        raw.second
    };
    let minute = if bcd_mode {
        bcd(raw.minute)
    } else {
        raw.minute
    };
    let hour0 = if bcd_mode {
        bcd_hour(raw.hour)
    } else {
        raw.hour
    };
    let day = if bcd_mode {
        bcd(raw.day)
    } else {
        raw.day
    };
    let month = if bcd_mode {
        bcd(raw.month)
    } else {
        raw.month
    };
    let year0 = if bcd_mode {
        bcd(raw.year)
    } else {
        raw.year
    };
    let century = if century_register != 0 && bcd_mode {
        bcd(raw.century)
    } else {
        raw.century
    };
    let hour = if register_b & 0x02 == 0 && hour0 & 0x80 != 0 {
        proof {
            assert(hour0 & 0x7F <= 0x7F) by (bit_vector);
        }
        ((hour0 & 0x7F) + 12) % 24
    } else {
        hour0
    };
    let year: u16 = if century_register != 0 {
        year0 as u16 + century as u16 * 100
    } else {
        year0 as u16 + 2000
    };
    Time { second, minute, hour, day, month, year, century }
}

/// The raw poll is a plausible BCD-mode clock reading: status
/// register B flags BCD encoding, every decoded field lies in the
/// chip's documented range, and in 12-hour mode the hour register
/// carries 1 to 12 beneath the PM bit.
pub open spec fn plausible_bcd_poll(raw: RawTime, register_b: u8) -> bool {
    &&& register_b & 0x04 == 0
    &&& bcd_spec(raw.second) < 60
    &&& bcd_spec(raw.minute) < 60
    &&& 1 <= bcd_spec(raw.day) <= 31
    &&& 1 <= bcd_spec(raw.month) <= 12
    &&& if register_b & 0x02 != 0 {
        raw.hour & 0x80 == 0 && bcd_hour_spec(raw.hour) < 24
    } else {
        1 <= bcd_spec((raw.hour & 0x7F) as u8) <= 12
    }
}

/// For any plausible BCD-mode poll, the normalized sample satisfies
/// the calendar invariants: seconds and minutes below 60, the hour
/// below 24, the day in 1..=31 and the month in 1..=12.
pub proof fn lemma_normalize_calendar_ranges(raw: RawTime, register_b: u8, century_register: u8)
    requires
        plausible_bcd_poll(raw, register_b),
    ensures
        normalize_spec(raw, register_b, century_register).second < 60,
        normalize_spec(raw, register_b, century_register).minute < 60,
        normalize_spec(raw, register_b, century_register).hour < 24,
        1 <= normalize_spec(raw, register_b, century_register).day <= 31,
        1 <= normalize_spec(raw, register_b, century_register).month <= 12,
{
    let h = raw.hour;
    assert((h & 0x7F) & 0x0F == h & 0x0F) by (bit_vector);
    assert((h & 0x7F) / 16 == (h & 0x70) / 16) by (bit_vector);
    assert(h & 0x0F <= 15) by (bit_vector);
    assert(h & 0x70 <= 0x70) by (bit_vector);
    assert(h & 0x80 == 0 || h & 0x80 == 0x80) by (bit_vector);
    let d = bcd_spec((h & 0x7F) as u8);
    if register_b & 0x02 != 0 {
    } else {
        assert(1 <= d <= 12);
        assert(d & 0x80 == 0) by (bit_vector)
            requires
                d <= 12,
        ;
        if h & 0x80 == 0 {
            assert(bcd_hour_spec(h) == d);
        } else {
            assert(bcd_hour_spec(h) == (d + 0x80) as u8);
            assert(((d + 0x80) as u8) & 0x80 == 0x80) by (bit_vector)
                requires
                    d <= 12,
            ;
            assert(((d + 0x80) as u8) & 0x7F == d) by (bit_vector)
                requires
                    d <= 12,
            ;
        }
    }
}

/// Poll `i` of the sequence agrees with the poll before it on every
/// field: the stable-read condition.
pub open spec fn stable_at(polls: Seq<RawTime>, i: int) -> bool {
    1 <= i < polls.len() && polls[i] == polls[i - 1]
}

/// One completed clock read: the normalized sample and how many
/// polls it took until two consecutive ones agreed.
#[derive(Clone, Copy, PartialEq, Eq, Structural, Debug)]
pub struct RtcRead {
    pub time: Time,
    pub polls_used: usize,
}

/// The current time, decided from a sequence of raw register polls:
/// the read completes at the first poll that is identical to its
/// predecessor across all seven fields — never on a single poll —
/// and returns that poll, normalized. A sequence that never
/// stabilizes yields `None` (the hardware driver polls forever
/// instead; a caller that bounds the polls gets the bound back here).
pub fn now(polls: &Vec<RawTime>, register_b: u8, century_register: u8) -> (r: Option<RtcRead>)
    ensures
        (r is Some) <==> exists|i: int| stable_at(polls@, i),
        r matches Some(rd) ==> {
            &&& 2 <= rd.polls_used <= polls@.len()
            &&& stable_at(polls@, rd.polls_used - 1)
            &&& forall|j: int| 1 <= j < rd.polls_used - 1 ==> !stable_at(polls@, j)
            &&& rd.time == normalize_spec(
                polls@[rd.polls_used - 1],
                register_b,
                century_register,
            )
        },
{
    let n = polls.len();
    let mut k: usize = 1;
    while k < n
        invariant
            1 <= k,
            n == polls@.len(),
            forall|j: int| 1 <= j < k ==> !stable_at(polls@, j),
        decreases n - k,
    {
        if polls[k] == polls[k - 1] {
            let time = normalize(polls[k], register_b, century_register);
            assert(stable_at(polls@, k as int));
            return Some(RtcRead { time, polls_used: k + 1 });
        }
        k = k + 1;
    }
    assert forall|i: int| !stable_at(polls@, i) by {}
    None
}

} // verus!
