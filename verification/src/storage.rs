//! How rules are stored: a direction is kept as the text `above` or `below`.

use crate::model::Direction;
use vstd::prelude::*;

verus! {

/// The stored text of a direction.
pub open spec fn label_of(d: Direction) -> Seq<char> {
    match d {
        Direction::Above => "above"@,
        Direction::Below => "below"@,
    }
}

/// The direction that a stored text means: `above` is above, any other
/// text below.
pub open spec fn direction_of_label(label: Seq<char>) -> Direction {
    if label == "above"@ {
        Direction::Above
    } else {
        Direction::Below
    }
}

/// The text to store for a direction.
pub fn direction_label(d: Direction) -> (r: String)
    ensures
        r@ == label_of(d),
{
    match d {
        Direction::Above => "above".to_owned(),
        Direction::Below => "below".to_owned(),
    }
}

/// The direction a stored text means.
pub fn direction_from_label(label: &String) -> (r: Direction)
    ensures
        r == direction_of_label(label@),
{
    let above = "above".to_owned();
    if *label == above {
        Direction::Above
    } else {
        Direction::Below
    }
}

/// Reading back the stored text of a direction gives the direction.
pub proof fn lemma_label_round_trip(d: Direction)
    ensures
        direction_of_label(label_of(d)) == d,
{
    reveal_strlit("above");
    reveal_strlit("below");
    if d == Direction::Below {
        assert("above"@[0] != "below"@[0]);
    }
}

} // verus!
