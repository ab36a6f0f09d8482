//! The participants and the colour assigned to each.

use crate::frame::Color;
use vstd::prelude::*;

verus! {

/// A participant and the colour in which its position is shown.
#[derive(Clone, Copy, Debug, PartialEq, Eq, Structural)]
pub struct Participant {
    pub id: u32,
    pub color: Color,
}

/// The colour assigned to the participant `id`: that of the first entry of
/// the table with this id, `None` where the table has none.
pub open spec fn assigned_color(table: Seq<Participant>, id: u32) -> Option<Color>
    decreases table.len(),
{
    if table.len() == 0 {
        None
    } else if table.first().id == id {
        Some(table.first().color)
    } else {
        assigned_color(table.drop_first(), id)
    }
}

/// A participant is known exactly where the table lists its id.
pub proof fn lemma_assigned_color_known(table: Seq<Participant>, id: u32)
    ensures
        assigned_color(table, id) is Some <==> exists|i: int|
            0 <= i < table.len() && (#[trigger] table[i]).id == id,
    decreases table.len(),
{
    if table.len() > 0 {
        let rest = table.drop_first();
        lemma_assigned_color_known(rest, id);
        if table.first().id == id {
            assert(table[0].id == id);
        } else {
            if assigned_color(rest, id) is Some {
                let i = choose|i: int| 0 <= i < rest.len() && (#[trigger] rest[i]).id == id;
                assert(table[i + 1].id == id);
            }
            if exists|i: int| 0 <= i < table.len() && (#[trigger] table[i]).id == id {
                let i = choose|i: int| 0 <= i < table.len() && (#[trigger] table[i]).id == id;
                assert(rest[i - 1].id == id);
            }
        }
    }
}

/// Looks up the colour assigned to the participant `id`.
pub fn find_color(table: &Vec<Participant>, id: u32) -> (color: Option<Color>)
    ensures
        color == assigned_color(table@, id),
{
    let mut i: usize = 0;
    proof {
        assert(table@.skip(0) =~= table@);
    }
    while i < table.len()
        invariant
            i <= table@.len(),
            assigned_color(table@, id) == assigned_color(table@.skip(i as int), id),
        decreases table@.len() - i,
    {
        if table[i].id == id {
            return Some(table[i].color);
        }
        proof {
            assert(table@.skip(i as int).drop_first() =~= table@.skip(i + 1));
        }
        i += 1;
    }
    None
}

} // verus!
