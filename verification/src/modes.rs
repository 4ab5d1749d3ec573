//! Transport modes, their carbon intensity and mode-transfer dwell times.

use vstd::prelude::*;

verus! {

use vstd::string::StringSliceAdditionalSpecFns;

/// A transport mode of the network.
#[derive(Debug, Clone, Copy, PartialEq, Eq, Hash, Structural)]
pub enum TransportMode {
    Maritime,
    Rail,
    Road,
    Air,
}

/// Default carbon intensity of a mode, in grams of CO2 per tonne-kilometre.
pub open spec fn carbon_factor_spec(m: TransportMode) -> u64 {
    match m {
        TransportMode::Maritime => 20,
        TransportMode::Rail => 25,
        TransportMode::Road => 100,
        TransportMode::Air => 800,
    }
}

/// Dwell overhead in hours when switching from mode `a` to mode `b` at an
/// intermediate node. Any transfer involving Air takes 4 hours; Maritime and
/// Rail 24; Maritime and Road 12; Rail and Road 6; any other pair,
/// including a same-mode handover, 2.
pub open spec fn transfer_hours_spec(a: TransportMode, b: TransportMode) -> u64 {
    if a == TransportMode::Air || b == TransportMode::Air {
        4
    } else if (a == TransportMode::Maritime && b == TransportMode::Rail) || (a
        == TransportMode::Rail && b == TransportMode::Maritime) {
        24
    } else if (a == TransportMode::Maritime && b == TransportMode::Road) || (a
        == TransportMode::Road && b == TransportMode::Maritime) {
        12
    } else if (a == TransportMode::Rail && b == TransportMode::Road) || (a == TransportMode::Road
        && b == TransportMode::Rail) {
        6
    } else {
        2
    }
}

impl TransportMode {
    /// Default carbon emission factor, in grams of CO2 per tonne-kilometre.
    pub fn default_carbon_factor(&self) -> (r: u64)
        ensures
            r == carbon_factor_spec(*self),
    {
        match self {
            TransportMode::Maritime => 20,
            TransportMode::Rail => 25,
            TransportMode::Road => 100,
            TransportMode::Air => 800,
        }
    }

    /// Dwell overhead in hours when switching from `self` to `to`.
    pub fn mode_transfer_hours(&self, to: &TransportMode) -> (r: u64)
        ensures
            r == transfer_hours_spec(*self, *to),
    {
        match (self, to) {
            (TransportMode::Air, _) => 4,
            (_, TransportMode::Air) => 4,
            (TransportMode::Maritime, TransportMode::Rail) => 24,
            (TransportMode::Rail, TransportMode::Maritime) => 24,
            (TransportMode::Maritime, TransportMode::Road) => 12,
            (TransportMode::Road, TransportMode::Maritime) => 12,
            (TransportMode::Rail, TransportMode::Road) => 6,
            (TransportMode::Road, TransportMode::Rail) => 6,
            _ => 2,
        }
    }

    /// Upper-case name of the mode, as used on the wire.
    pub fn label(&self) -> (r: &'static str)
        ensures
            r@ == mode_label_spec(*self),
    {
        match self {
            TransportMode::Maritime => "MARITIME",
            TransportMode::Rail => "RAIL",
            TransportMode::Road => "ROAD",
            TransportMode::Air => "AIR",
        }
    }
}

pub open spec fn mode_label_spec(m: TransportMode) -> Seq<char> {
    match m {
        TransportMode::Maritime => "MARITIME"@,
        TransportMode::Rail => "RAIL"@,
        TransportMode::Road => "ROAD"@,
        TransportMode::Air => "AIR"@,
    }
}

/// ASCII upper-casing of a single byte.
pub open spec fn upper_byte(b: u8) -> u8 {
    if 97 <= b && b <= 122 {
        (b - 32) as u8
    } else {
        b
    }
}

/// The mode named by a byte string, matched case-insensitively;
/// `None` for an unknown mode name.
pub open spec fn mode_of_bytes(bs: Seq<u8>) -> Option<TransportMode> {
    let u = bs.map_values(|b: u8| upper_byte(b));
    if u == "MARITIME"@.map_values(|c: char| c as u8) {
        Some(TransportMode::Maritime)
    } else if u == "RAIL"@.map_values(|c: char| c as u8) {
        Some(TransportMode::Rail)
    } else if u == "ROAD"@.map_values(|c: char| c as u8) {
        Some(TransportMode::Road)
    } else if u == "AIR"@.map_values(|c: char| c as u8) {
        Some(TransportMode::Air)
    } else {
        None
    }
}

fn upper_byte_x(b: u8) -> (r: u8)
    ensures
        r == upper_byte(b),
{
    if 97 <= b && b <= 122 {
        b - 32
    } else {
        b
    }
}

/// True iff `bs`, upper-cased byte-wise, equals the bytes of the ASCII
/// pattern `pat`.
fn upper_matches(bs: &[u8], pat: &str) -> (r: bool)
    requires
        pat.is_ascii(),
    ensures
        r == (bs@.map_values(|b: u8| upper_byte(b)) == pat@.map_values(|c: char| c as u8)),
{
    proof {
        vstd::string::is_ascii_spec_bytes(pat);
    }
    let pb = pat.as_bytes();
    if bs.len() != pb.len() {
        assert(bs@.map_values(|b: u8| upper_byte(b)).len() != pat@.map_values(
            |c: char| c as u8,
        ).len());
        return false;
    }
    let n = bs.len();
    let mut i: usize = 0;
    while i < n
        invariant
            n == bs@.len() == pb@.len(),
            pb@ == pat@.map_values(|c: char| c as u8),
            0 <= i <= n,
            forall|k: int|
                0 <= k < i ==> upper_byte(bs@[k]) == pat@.map_values(|c: char| c as u8)[k],
        decreases n - i,
    {
        let c = upper_byte_x(bs[i]);
        if c != pb[i] {
            assert(bs@.map_values(|b: u8| upper_byte(b))[i as int] != pat@.map_values(
                |c: char| c as u8,
            )[i as int]);
            return false;
        }
        i += 1;
    }
    assert(bs@.map_values(|b: u8| upper_byte(b)) =~= pat@.map_values(|c: char| c as u8));
    true
}

/// Parses a mode name, matched case-insensitively against the four known
/// modes; unknown names yield `None`.
pub fn parse_mode(s: &str) -> (r: Option<TransportMode>)
    ensures
        r == mode_of_bytes(s.spec_bytes()),
{
    proof {
        reveal_strlit("MARITIME");
        reveal_strlit("RAIL");
        reveal_strlit("ROAD");
        reveal_strlit("AIR");
    }
    let bs = s.as_bytes();
    if upper_matches(bs, "MARITIME") {
        Some(TransportMode::Maritime)
    } else if upper_matches(bs, "RAIL") {
        Some(TransportMode::Rail)
    } else if upper_matches(bs, "ROAD") {
        Some(TransportMode::Road)
    } else if upper_matches(bs, "AIR") {
        Some(TransportMode::Air)
    } else {
        None
    }
}

} // verus!
