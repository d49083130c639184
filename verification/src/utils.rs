//! Shared helpers: linear interpolation, registry-name parsing over whole
//! listings, and the hardware-monitor eligibility filter.

use vstd::prelude::*;

use vstd::arithmetic::div_mod::{lemma_div_is_ordered, lemma_div_multiples_vanish, lemma_div_pos_is_pos};

use crate::device::{card_index, card_name_parses, Card};
use crate::hw_mon::HwMon;

verus! {

/// The cards named by a registry listing: each name of the shape
/// `card<digits>` contributes its card, in listing order; other names
/// are not devices this system manages and are skipped.
pub open spec fn cards_of(names: Seq<Seq<char>>) -> Seq<Card>
    decreases names.len(),
{
    if names.len() == 0 {
        Seq::empty()
    } else if card_name_parses(names.last()) {
        cards_of(names.drop_last()).push(Card(card_index(names.last()) as u32))
    } else {
        cards_of(names.drop_last())
    }
}

/// Parses a raw registry listing into the cards it names, keeping the
/// listing's order and silently skipping entries of any other shape.
pub fn cards_from_names(names: &Vec<String>) -> (r: Vec<Card>)
    ensures
        r@ == cards_of(names.deep_view()),
{
    let ghost all = names.deep_view();
    let mut r: Vec<Card> = Vec::new();
    let mut i: usize = 0;
    while i < names.len()
        invariant
            0 <= i <= names.len(),
            all == names.deep_view(),
            all.len() == names.len(),
            forall|j: int| 0 <= j < names.len() ==> all[j] == names[j]@,
            r@ == cards_of(all.take(i as int)),
        decreases names.len() - i,
    {
        proof {
            assert(all.take(i + 1).drop_last() =~= all.take(i as int));
            assert(all.take(i + 1).last() == names[i as int]@);
        }
        match Card::parse(names[i].as_str()) {
            Ok(card) => {
                r.push(card);
            },
            Err(_) => {
            },
        }
        i = i + 1;
    }
    proof {
        assert(all.take(names.len() as int) =~= all);
    }
    r
}

/// A monitor passes the filter when filtering is off, or when both of
/// its eligibility facts hold.
pub open spec fn eligible(m: HwMon, filter: bool) -> bool {
    !filter || (m.amd_vendor && m.amd_name)
}

/// The monitors of `s` that pass the filter, in listing order.
pub open spec fn filtered_mons(s: Seq<HwMon>, filter: bool) -> Seq<HwMon>
    decreases s.len(),
{
    if s.len() == 0 {
        Seq::empty()
    } else if eligible(s.last(), filter) {
        filtered_mons(s.drop_last(), filter).push(s.last())
    } else {
        filtered_mons(s.drop_last(), filter)
    }
}

/// Keeps the monitors that are usable fan controllers.  With `filter`
/// off every opened monitor passes; with it on, a monitor must both
/// belong to the target vendor and report the target interface name.
/// Both facts were computed at open time, so both stay observable even
/// for excluded devices.
pub fn hw_mons(mons: Vec<HwMon>, filter: bool) -> (r: Vec<HwMon>)
    ensures
        r@ == filtered_mons(mons@, filter),
{
    let mut r: Vec<HwMon> = Vec::new();
    let mut i: usize = 0;
    while i < mons.len()
        invariant
            0 <= i <= mons.len(),
            r@ == filtered_mons(mons@.take(i as int), filter),
        decreases mons.len() - i,
    {
        proof {
            assert(mons@.take(i + 1).drop_last() =~= mons@.take(i as int));
        }
        let m = mons[i];
        if !filter || (m.is_amd() && m.name_is_amd()) {
            r.push(m);
        }
        i = i + 1;
    }
    proof {
        assert(mons@.take(mons.len() as int) =~= mons@);
    }
    r
}

/// With filtering off, the filter keeps every opened monitor unchanged.
pub proof fn lemma_unfiltered_keeps_all(s: Seq<HwMon>)
    ensures
        filtered_mons(s, false) == s,
    decreases s.len(),
{
    if s.len() > 0 {
        lemma_unfiltered_keeps_all(s.drop_last());
        assert(filtered_mons(s, false) =~= s);
    } else {
        assert(filtered_mons(s, false) =~= s);
    }
}

/// Every monitor the filter returns passes it: a device failing either
/// eligibility fact is excluded.
pub proof fn lemma_filtered_are_eligible(s: Seq<HwMon>, filter: bool)
    ensures
        forall|i: int| 0 <= i < filtered_mons(s, filter).len() ==> eligible(
            #[trigger] filtered_mons(s, filter)[i],
            filter,
        ),
    decreases s.len(),
{
    if s.len() > 0 {
        lemma_filtered_are_eligible(s.drop_last(), filter);
        let f = filtered_mons(s, filter);
        let sub = filtered_mons(s.drop_last(), filter);
        assert forall|i: int| 0 <= i < f.len() implies eligible(f[i], filter) by {
            if i < sub.len() {
                assert(f[i] == sub[i]);
            } else {
                assert(f[i] == s.last());
            }
        }
    }
}

/// No eligible monitor is dropped: each one reappears in the filter's
/// result.
pub proof fn lemma_eligible_are_kept(s: Seq<HwMon>, filter: bool, i: int)
    requires
        0 <= i < s.len(),
        eligible(s[i], filter),
    ensures
        filtered_mons(s, filter).contains(s[i]),
    decreases s.len(),
{
    if i == s.len() - 1 {
        assert(filtered_mons(s, filter).last() == s[i]);
    } else {
        lemma_eligible_are_kept(s.drop_last(), filter, i);
        let sub = filtered_mons(s.drop_last(), filter);
        let k = choose|k: int| 0 <= k < sub.len() && sub[k] == s.drop_last()[i];
        if eligible(s.last(), filter) {
            assert(filtered_mons(s, filter)[k] == s[i]);
        } else {
            assert(filtered_mons(s, filter)[k] == s[i]);
        }
    }
}

/// Linear mapping of `x` from the range `[x1, x2]` into `[y1, y2]`,
/// rounded toward negative infinity to the fixed-point grid.
pub fn linear_map(x: i64, x1: i64, x2: i64, y1: i64, y2: i64) -> (r: i64)
    requires
        x1 <= x <= x2,
        x1 < x2,
        y1 <= y2,
    ensures
        r == y1 + (y2 - y1) * (x - x1) / (x2 - x1),
        y1 <= r <= y2,
{
    let dy = (y2 as i128) - (y1 as i128);
    let dx = (x2 as i128) - (x1 as i128);
    let dt = (x as i128) - (x1 as i128);
    proof {
        let gdy = dy as int;
        let gdx = dx as int;
        let gdt = dt as int;
        assert(gdy * gdt <= u128::MAX) by (nonlinear_arith)
            requires
                0 <= gdy < 0x1_0000_0000_0000_0000,
                0 <= gdt < 0x1_0000_0000_0000_0000,
        ;
        lemma_div_pos_is_pos(gdy * gdt, gdx);
        assert(gdy * gdt <= gdy * gdx) by (nonlinear_arith)
            requires
                0 <= gdy,
                gdt <= gdx,
        ;
        lemma_div_is_ordered(gdy * gdt, gdy * gdx, gdx);
        lemma_div_multiples_vanish(gdy, gdx);
        assert(gdx * gdy == gdy * gdx) by (nonlinear_arith);
    }
    let q = ((dy as u128) * (dt as u128)) / (dx as u128);
    let r = (y1 as i128) + (q as i128);
    r as i64
}

} // verus!
