//! What composes with something that follows is a starter.
use crate::unicode_tables::apart;
use crate::unicode_tables::classes;
use crate::unicode_tables::classes::CCC;
use crate::unicode_tables::compositions;
use crate::unicode_tables::compositions::COMPOSE;
use crate::unicode_tables::order;
use vstd::prelude::*;

verus! {

proof fn lemma_classes_in_order()
    ensures
        apart::keys_in_order(order::pair_keys(classes::table())),
{
    reveal(apart::keys_in_order);
    classes::lemma_order();
}

proof fn lemma_compositions_in_order()
    ensures
        apart::keys_in_order(order::wide_keys(compositions::table())),
{
    reveal(apart::keys_in_order);
    compositions::lemma_order();
}

/// The first of two that compose has no combining class.
pub proof fn compositions_begin_with_starters()
    ensures
        apart::firsts_apart(
            compositions::table(),
            classes::table(),
            compositions::table().len() as int,
        ),
{
    lemma_classes_in_order();
    lemma_compositions_in_order();
    classes::table_holds_the_rows();
    compositions::table_holds_the_rows();
    let t = COMPOSE@;
    let s = CCC@;
    apart::lemma_firsts_start(t, s);
    apart::lemma_firsts_run(t, s, 0, 489, 0);
    apart::lemma_firsts_run(t, s, 489, 633, 111);
    apart::lemma_firsts_run(t, s, 633, 637, 116);
    apart::lemma_firsts_run(t, s, 637, 642, 178);
    apart::lemma_firsts_run(t, s, 642, 645, 200);
    apart::lemma_firsts_run(t, s, 645, 648, 342);
    apart::lemma_firsts_run(t, s, 648, 650, 349);
    apart::lemma_firsts_run(t, s, 650, 653, 356);
    apart::lemma_firsts_run(t, s, 653, 657, 357);
    apart::lemma_firsts_run(t, s, 657, 658, 359);
    apart::lemma_firsts_run(t, s, 658, 663, 363);
    apart::lemma_firsts_run(t, s, 663, 666, 366);
    apart::lemma_firsts_run(t, s, 666, 670, 368);
    apart::lemma_firsts_run(t, s, 670, 671, 401);
    apart::lemma_firsts_run(t, s, 671, 677, 459);
    apart::lemma_firsts_run(t, s, 677, 682, 460);
    apart::lemma_firsts_run(t, s, 682, 829, 567);
    apart::lemma_firsts_run(t, s, 829, 870, 593);
    apart::lemma_firsts_run(t, s, 870, 896, 635);
    apart::lemma_firsts_run(t, s, 896, 928, 637);
    apart::lemma_firsts_run(t, s, 928, 931, 746);
    apart::lemma_firsts_run(t, s, 931, 933, 751);
    apart::lemma_firsts_run(t, s, 933, 935, 762);
    apart::lemma_firsts_run(t, s, 935, 938, 778);
    apart::lemma_firsts_run(t, s, 938, 940, 780);
    apart::lemma_firsts_run(t, s, 940, 941, 788);
}

} // verus!
