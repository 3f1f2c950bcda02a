//! Where the question cards and section separators of the list panel go.

use vstd::prelude::*;

verus! {

/// The height of a question card, in rows.
pub const CARD_HEIGHT: u16 = 7;

/// One thing drawn in the list panel, at row `y` of the panel.
#[derive(Clone, Copy, Debug, PartialEq, Eq, Structural)]
pub enum Slot {
    /// A separator naming the section of the question at `index`.
    Separator { y: u16, index: usize },
    /// The card of the question at `index` of the shown list.
    Card { y: u16, index: usize },
}

/// The slots from question `v` on, starting at row `y`, with `last` the
/// section of the separator or card drawn before; and how many cards they
/// hold. A separator opens each new section; drawing stops at the first
/// separator or card that does not fit in `height` rows.
pub open spec fn slots_from(keys: Seq<(bool, u8)>, height: int, v: int, y: int, last: Option<(bool, u8)>) -> (
    Seq<Slot>,
    nat,
)
    decreases keys.len() - v,
{
    if v < 0 || v >= keys.len() {
        (seq![], 0)
    } else if last != Some(keys[v]) {
        if y + 1 > height {
            (seq![], 0)
        } else if y + 1 + CARD_HEIGHT > height {
            (seq![Slot::Separator { y: y as u16, index: v as usize }], 0)
        } else {
            let (rest, c) = slots_from(keys, height, v + 1, y + 1 + CARD_HEIGHT, Some(keys[v]));
            (
                seq![
                    Slot::Separator { y: y as u16, index: v as usize },
                    Slot::Card { y: (y + 1) as u16, index: v as usize },
                ] + rest,
                c + 1,
            )
        }
    } else if y + CARD_HEIGHT > height {
        (seq![], 0)
    } else {
        let (rest, c) = slots_from(keys, height, v + 1, y + CARD_HEIGHT, last);
        (seq![Slot::Card { y: y as u16, index: v as usize }] + rest, c + 1)
    }
}

/// The slots of a panel `height` rows high that shows the list from
/// position `scroll`: a separator pinned on the first row for the section
/// of the first card shown (when there is a row for it), then the cards in
/// order, each new section opened by a separator; and the number of cards
/// the panel holds, at least one.
pub open spec fn spec_card_slots(keys: Seq<(bool, u8)>, scroll: int, height: int) -> (Seq<Slot>, nat) {
    let (slots, cards) = if 0 <= scroll < keys.len() {
        if 1 <= height {
            let (rest, c) = slots_from(keys, height, scroll, 1, Some(keys[scroll]));
            (seq![Slot::Separator { y: 0, index: scroll as usize }] + rest, c)
        } else {
            slots_from(keys, height, scroll, 0, Some(keys[scroll]))
        }
    } else {
        (seq![], 0)
    };
    (slots, if cards > 0 { cards } else { 1 })
}

/// Lays out the list panel: `keys` are the sections (generated or not,
/// level) of the shown questions in order.
pub fn card_slots(keys: &[(bool, u8)], scroll: usize, height: u16) -> (r: (Vec<Slot>, usize))
    requires
        height as int + CARD_HEIGHT + 1 <= u16::MAX,
    ensures
        (r.0@, r.1 as nat) == spec_card_slots(keys@, scroll as int, height as int),
{
    let ghost ks = keys@;
    let ghost h = height as int;
    let n = keys.len();
    let mut slots: Vec<Slot> = Vec::new();
    let mut cards: usize = 0;
    if scroll >= n {
        return (slots, 1);
    }
    let mut y: u16 = 0;
    if 1 <= height {
        slots.push(Slot::Separator { y: 0, index: scroll });
        y = 1;
    }
    let mut last: (bool, u8) = keys[scroll];
    let ghost total = spec_card_slots(ks, scroll as int, h);
    let ghost whole = if 1 <= height {
        let (rest, c) = slots_from(ks, h, scroll as int, 1, Some(ks[scroll as int]));
        (seq![Slot::Separator { y: 0, index: scroll as usize }] + rest, c)
    } else {
        slots_from(ks, h, scroll as int, 0, Some(ks[scroll as int]))
    };
    assert(slots@ + slots_from(ks, h, scroll as int, y as int, Some(last)).0 =~= whole.0);
    let mut v: usize = scroll;
    let mut stopped = false;
    while v < n && !stopped
        invariant
            ks == keys@,
            h == height as int,
            n == ks.len(),
            h + CARD_HEIGHT + 1 <= u16::MAX,
            scroll <= v <= n,
            y <= height,
            cards <= v - scroll,
            stopped ==> slots@ == whole.0 && cards == whole.1,
            !stopped ==> slots@ + slots_from(ks, h, v as int, y as int, Some(last)).0 == whole.0,
            !stopped ==> cards + slots_from(ks, h, v as int, y as int, Some(last)).1 == whole.1,
        decreases n - v, if stopped { 0int } else { 1int },
    {
        let k = keys[v];
        let ghost before = slots@;
        if k.0 != last.0 || k.1 != last.1 {
            if y as u32 + 1 > height as u32 {
                stopped = true;
            } else if y as u32 + 1 + CARD_HEIGHT as u32 > height as u32 {
                slots.push(Slot::Separator { y, index: v });
                assert(slots@ =~= before + seq![Slot::Separator { y: y, index: v }]);
                stopped = true;
            } else {
                slots.push(Slot::Separator { y, index: v });
                slots.push(Slot::Card { y: y + 1, index: v });
                let ghost rest = slots_from(ks, h, v + 1, y + 1 + CARD_HEIGHT, Some(k));
                assert(slots@ + rest.0 =~= before + (seq![
                    Slot::Separator { y: y, index: v },
                    Slot::Card { y: (y + 1) as u16, index: v },
                ] + rest.0));
                y = y + 1 + CARD_HEIGHT;
                last = k;
                cards = cards + 1;
                v = v + 1;
            }
        } else {
            if y as u32 + CARD_HEIGHT as u32 > height as u32 {
                stopped = true;
            } else {
                slots.push(Slot::Card { y, index: v });
                let ghost rest = slots_from(ks, h, v + 1, y + CARD_HEIGHT, Some(last));
                assert(slots@ + rest.0 =~= before + (seq![Slot::Card { y: y, index: v }] + rest.0));
                y = y + CARD_HEIGHT;
                cards = cards + 1;
                v = v + 1;
            }
        }
        if stopped {
            assert(slots@ =~= whole.0);
        }
    }
    if !stopped {
        assert(slots@ =~= whole.0);
    }
    let count = if cards > 0 {
        cards
    } else {
        1
    };
    (slots, count)
}

} // verus!
