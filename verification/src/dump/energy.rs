//! Energy amounts such as `75kW` or `1.5 MJ`.

use vstd::prelude::*;

use crate::dump::raw::DumpError;
use crate::quantity::Quantity;
use crate::text::{find_ascii_letter, is_ascii_letter, str_eq, trim, trimmed};

verus! {

/// The power of a thousand by which a unit multiplies: none for watts and
/// joules, and one more for each of kilo, mega, giga and tera.
pub open spec fn unit_power(unit: Seq<char>) -> Option<nat> {
    if unit == "W"@ || unit == "J"@ {
        Some(0)
    } else if unit == "kW"@ || unit == "kJ"@ {
        Some(1)
    } else if unit == "MW"@ || unit == "MJ"@ {
        Some(2)
    } else if unit == "GW"@ || unit == "GJ"@ {
        Some(3)
    } else if unit == "TW"@ || unit == "TJ"@ {
        Some(4)
    } else {
        None
    }
}

/// The position of the first ASCII letter of `s`.
pub open spec fn first_letter(s: Seq<char>) -> int {
    choose|i: int| 0 <= i < s.len() && is_ascii_letter(s[i]) && forall|j: int| 0 <= j < i ==> !is_ascii_letter(s[j])
}

/// The number and the unit of an energy amount: the text is trimmed and
/// split before its first letter, and both parts are trimmed. None when
/// there is no letter.
pub open spec fn energy_parts(spec: Seq<char>) -> Option<(Seq<char>, Seq<char>)> {
    let t = trimmed(spec);
    if exists|i: int| 0 <= i < t.len() && is_ascii_letter(#[trigger] t[i]) {
        let i = first_letter(t);
        Some((trimmed(t.take(i)), trimmed(t.skip(i))))
    } else {
        None
    }
}

/// The text has a number part and a known unit.
pub open spec fn energy_readable(spec: Seq<char>) -> bool {
    energy_parts(spec) matches Some((num, unit)) && unit_power(unit) is Some
}

/// A thousand to the power `p`, for the powers that units use.
pub open spec fn thousand_to<N: Quantity>(p: nat) -> N {
    if p == 0 {
        N::spec_one()
    } else if p == 1 {
        N::spec_from_u64(1_000)
    } else if p == 2 {
        N::spec_from_u64(1_000_000)
    } else if p == 3 {
        N::spec_from_u64(1_000_000_000)
    } else {
        N::spec_from_u64(1_000_000_000_000)
    }
}

/// The number part of an energy amount.
pub open spec fn energy_number(spec: Seq<char>) -> Seq<char> {
    energy_parts(spec).unwrap().0
}

/// The energy amount is readable and its number part parses, as every text
/// of it does.
pub open spec fn energy_sound<N: Quantity>(spec: Seq<char>) -> bool {
    &&& energy_readable(spec)
    &&& forall|t: &str| t@ == energy_number(spec) ==> (#[trigger] N::spec_parse(t)) is Some
}

/// `v` is the value of the energy amount: a text of its number part parses
/// to some `x`, and `v` is `x` times what its unit multiplies by.
pub open spec fn energy_value<N: Quantity>(spec: Seq<char>, v: N) -> bool {
    &&& energy_readable(spec)
    &&& exists|t: &str|
        t@ == energy_number(spec) && ((#[trigger] N::spec_parse(t)) matches Some(x) && v == x.spec_times(
            thousand_to::<N>(unit_power(energy_parts(spec).unwrap().1).unwrap()),
        ))
}

/// What a unit multiplies by: a power of a thousand.
pub fn multiplier<N: Quantity>(unit: &str) -> (r: Option<N>)
    ensures
        match unit_power(unit@) {
            Some(p) => r == Some(thousand_to::<N>(p)),
            None => r is None,
        },
{
    proof {
        reveal_strlit("W");
        reveal_strlit("J");
        reveal_strlit("kW");
        reveal_strlit("kJ");
        reveal_strlit("MW");
        reveal_strlit("MJ");
        reveal_strlit("GW");
        reveal_strlit("GJ");
        reveal_strlit("TW");
        reveal_strlit("TJ");
    }
    if str_eq(unit, "W") || str_eq(unit, "J") {
        Some(N::one())
    } else if str_eq(unit, "kW") || str_eq(unit, "kJ") {
        Some(N::from_u64(1_000))
    } else if str_eq(unit, "MW") || str_eq(unit, "MJ") {
        Some(N::from_u64(1_000_000))
    } else if str_eq(unit, "GW") || str_eq(unit, "GJ") {
        Some(N::from_u64(1_000_000_000))
    } else if str_eq(unit, "TW") || str_eq(unit, "TJ") {
        Some(N::from_u64(1_000_000_000_000))
    } else {
        None
    }
}

/// The energy written in `spec`, in watts or joules: the number times what
/// the unit multiplies by. Fails with `InvalidEnergy` when there is no
/// unit, when the unit is unknown, or when the number cannot be read.
pub fn parse_energy<N: Quantity>(spec: &str) -> (r: Result<N, DumpError>)
    ensures
        r matches Ok(v) ==> energy_value::<N>(spec@, v),
        energy_sound::<N>(spec@) ==> r is Ok,
        r matches Err(e) ==> e matches DumpError::InvalidEnergy(s) && s@ == spec@,
{
    let t = trim(spec);
    let split_at = match find_ascii_letter(t) {
        Some(i) => i,
        None => {
            return Err(DumpError::InvalidEnergy(spec.to_owned()));
        },
    };
    let n = t.unicode_len();
    let head = t.substring_char(0, split_at);
    let tail = t.substring_char(split_at, n);
    let num = trim(head);
    let unit = trim(tail);
    proof {
        let tt = trimmed(spec@);
        assert(t@ == tt);
        assert(is_ascii_letter(tt[split_at as int]));
        let i = first_letter(tt);
        assert(0 <= i < tt.len() && is_ascii_letter(tt[i]) && forall|j: int| 0 <= j < i ==> !is_ascii_letter(tt[j]));
        if i < split_at {
            assert(!is_ascii_letter(tt[i]));
        }
        if split_at < i {
            assert(!is_ascii_letter(tt[split_at as int]));
        }
        assert(i == split_at);
        assert(head@ =~= tt.take(i));
        assert(tail@ =~= tt.skip(i));
    }
    let m = match multiplier::<N>(unit) {
        Some(m) => m,
        None => {
            return Err(DumpError::InvalidEnergy(spec.to_owned()));
        },
    };
    let value = match N::parse(num) {
        Some(v) => v,
        None => {
            proof {
                assert(num@ == energy_number(spec@));
            }
            return Err(DumpError::InvalidEnergy(spec.to_owned()));
        },
    };
    let r = value.times(m);
    proof {
        assert(num@ == energy_number(spec@));
        assert(N::spec_parse(num) == Some(value));
    }
    Ok(r)
}

} // verus!
