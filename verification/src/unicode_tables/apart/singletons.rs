//! Of what is no starter only tone marks decompose to one code point.
use crate::unicode_tables::apart;
use crate::unicode_tables::classes;
use crate::unicode_tables::classes::CCC;
use crate::unicode_tables::order;
use crate::unicode_tables::singletons;
use crate::unicode_tables::singletons::DECOMPOSE_1;
use vstd::prelude::*;

verus! {

proof fn lemma_classes_in_order()
    ensures
        apart::keys_in_order(order::pair_keys(classes::table())),
{
    reveal(apart::keys_in_order);
    classes::lemma_order();
}

proof fn lemma_singletons_in_order()
    ensures
        apart::keys_in_order(order::pair_keys(singletons::table())),
{
    reveal(apart::keys_in_order);
    singletons::lemma_order();
}

proof fn lemma_marks_are_no_singletons_0()
    requires
        apart::keys_in_order(order::pair_keys(CCC@)),
        apart::keys_in_order(order::pair_keys(DECOMPOSE_1@)),
        apart::keys_apart(order::pair_keys(CCC@), order::pair_keys(DECOMPOSE_1@), 0),
    ensures
        apart::keys_apart(order::pair_keys(CCC@), order::pair_keys(DECOMPOSE_1@), 912),
{
    let s = CCC@;
    let t = DECOMPOSE_1@;
    apart::lemma_singletons_run(s, t, 0, 64, 0);
    apart::lemma_keys_aside(s, order::pair_keys(t), 64, 69);
    apart::lemma_singletons_run(s, t, 69, 111, 3);
    apart::lemma_singletons_run(s, t, 111, 567, 6);
    apart::lemma_singletons_run(s, t, 567, 593, 28);
    apart::lemma_singletons_run(s, t, 593, 690, 33);
    apart::lemma_singletons_run(s, t, 690, 912, 493);
}

/// Of what is no starter only tone marks decompose to one.
pub proof fn marks_are_no_singletons()
    ensures
        apart::keys_apart(
            order::pair_keys(classes::table()),
            order::pair_keys(singletons::table()),
            classes::table().len() as int,
        ),
{
    lemma_classes_in_order();
    lemma_singletons_in_order();
    classes::table_holds_the_rows();
    singletons::table_holds_the_rows();
    apart::lemma_keys_start(order::pair_keys(CCC@), order::pair_keys(DECOMPOSE_1@));
    lemma_marks_are_no_singletons_0();
}

} // verus!
