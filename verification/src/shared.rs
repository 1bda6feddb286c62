//! Random coinage of display names from fixed word lists.
use vstd::prelude::*;

verus! {

pub const ADJECTIVE_COUNT: usize = 16;

pub const ANIMAL_COUNT: usize = 16;

/// The fixed adjective table, entry by entry.
pub open spec fn spec_adjective(i: int) -> Seq<char> {
    if i == 0 {
        "Swift"@
    } else if i == 1 {
        "Quiet"@
    } else if i == 2 {
        "Brave"@
    } else if i == 3 {
        "Merry"@
    } else if i == 4 {
        "Dusty"@
    } else if i == 5 {
        "Sly"@
    } else if i == 6 {
        "Gentle"@
    } else if i == 7 {
        "Spry"@
    } else if i == 8 {
        "Bold"@
    } else if i == 9 {
        "Calm"@
    } else if i == 10 {
        "Eager"@
    } else if i == 11 {
        "Witty"@
    } else if i == 12 {
        "Proud"@
    } else if i == 13 {
        "Shy"@
    } else if i == 14 {
        "Keen"@
    } else {
        "Lively"@
    }
}

/// The fixed animal-noun table, entry by entry.
pub open spec fn spec_animal(i: int) -> Seq<char> {
    if i == 0 {
        "Otter"@
    } else if i == 1 {
        "Heron"@
    } else if i == 2 {
        "Lynx"@
    } else if i == 3 {
        "Badger"@
    } else if i == 4 {
        "Finch"@
    } else if i == 5 {
        "Marten"@
    } else if i == 6 {
        "Seal"@
    } else if i == 7 {
        "Ibex"@
    } else if i == 8 {
        "Crane"@
    } else if i == 9 {
        "Vole"@
    } else if i == 10 {
        "Stoat"@
    } else if i == 11 {
        "Plover"@
    } else if i == 12 {
        "Gull"@
    } else if i == 13 {
        "Shrew"@
    } else if i == 14 {
        "Wren"@
    } else {
        "Tern"@
    }
}

/// `s` reads as `<adjective><animal>`: some entry of the adjective
/// table followed by some entry of the animal table.
pub open spec fn is_coined_name(s: Seq<char>) -> bool {
    exists|i: int, j: int|
        0 <= i < ADJECTIVE_COUNT as int && 0 <= j < ANIMAL_COUNT as int && s == spec_adjective(i)
            + spec_animal(j)
}

/// Relies on fastrand::usize: returns a value drawn from the half-open
/// range `0..bound`, which is non-empty by the precondition.
#[verifier::external_body]
fn random_index(bound: usize) -> (r: usize)
    requires
        bound > 0,
    ensures
        r < bound,
{
    fastrand::usize(..bound)
}

/// Entry `i` of the fixed adjective table.
pub fn adjective(i: usize) -> (r: &'static str)
    requires
        i < ADJECTIVE_COUNT,
    ensures
        r@ == spec_adjective(i as int),
{
    match i {
        0 => "Swift",
        1 => "Quiet",
        2 => "Brave",
        3 => "Merry",
        4 => "Dusty",
        5 => "Sly",
        6 => "Gentle",
        7 => "Spry",
        8 => "Bold",
        9 => "Calm",
        10 => "Eager",
        11 => "Witty",
        12 => "Proud",
        13 => "Shy",
        14 => "Keen",
        _ => "Lively",
    }
}

/// Entry `i` of the fixed animal-noun table.
pub fn animal(i: usize) -> (r: &'static str)
    requires
        i < ANIMAL_COUNT,
    ensures
        r@ == spec_animal(i as int),
{
    match i {
        0 => "Otter",
        1 => "Heron",
        2 => "Lynx",
        3 => "Badger",
        4 => "Finch",
        5 => "Marten",
        6 => "Seal",
        7 => "Ibex",
        8 => "Crane",
        9 => "Vole",
        10 => "Stoat",
        11 => "Plover",
        12 => "Gull",
        13 => "Shrew",
        14 => "Wren",
        _ => "Tern",
    }
}

/// A randomly coined candidate display name: a random adjective of the
/// fixed table followed by a random animal noun of it.
pub fn random_name() -> (r: String)
    ensures
        is_coined_name(r@),
{
    let i = random_index(ADJECTIVE_COUNT);
    let a = adjective(i);
    let j = random_index(ANIMAL_COUNT);
    let n = animal(j);
    let r = String::from_str(a).concat(n);
    proof {
        assert((i as int) < (ADJECTIVE_COUNT as int) && (j as int) < (ANIMAL_COUNT as int)
            && r@ == spec_adjective(i as int) + spec_animal(j as int));
    }
    r
}

} // verus!
