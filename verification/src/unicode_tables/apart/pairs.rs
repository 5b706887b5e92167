//! Of what is no starter only tone marks decompose to two code points.
use crate::unicode_tables::apart;
use crate::unicode_tables::classes;
use crate::unicode_tables::classes::CCC;
use crate::unicode_tables::order;
use crate::unicode_tables::pairs;
use crate::unicode_tables::pairs::DECOMPOSE_2;
use vstd::prelude::*;

verus! {

proof fn lemma_classes_in_order()
    ensures
        apart::keys_in_order(order::pair_keys(classes::table())),
{
    reveal(apart::keys_in_order);
    classes::lemma_order();
}

proof fn lemma_pairs_in_order()
    ensures
        apart::keys_in_order(order::triple_keys(pairs::table())),
{
    reveal(apart::keys_in_order);
    pairs::lemma_order();
}

proof fn lemma_marks_are_no_pairs_0()
    requires
        apart::keys_in_order(order::pair_keys(CCC@)),
        apart::keys_in_order(order::triple_keys(DECOMPOSE_2@)),
        apart::keys_apart(order::pair_keys(CCC@), order::triple_keys(DECOMPOSE_2@), 0),
    ensures
        apart::keys_apart(order::pair_keys(CCC@), order::triple_keys(DECOMPOSE_2@), 357),
{
    let s = CCC@;
    let t = DECOMPOSE_2@;
    apart::lemma_pairs_run(s, t, 0, 64, 252);
    apart::lemma_keys_aside(s, order::triple_keys(t), 64, 69);
    apart::lemma_pairs_run(s, t, 69, 111, 253);
    apart::lemma_pairs_run(s, t, 111, 116, 294);
    apart::lemma_pairs_run(s, t, 116, 178, 328);
    apart::lemma_pairs_run(s, t, 178, 200, 333);
    apart::lemma_pairs_run(s, t, 200, 342, 336);
    apart::lemma_pairs_run(s, t, 342, 348, 339);
    apart::lemma_pairs_run(s, t, 348, 349, 347);
    apart::lemma_pairs_run(s, t, 349, 350, 349);
    apart::lemma_pairs_run(s, t, 350, 351, 352);
    apart::lemma_pairs_run(s, t, 351, 353, 354);
    apart::lemma_pairs_run(s, t, 353, 356, 358);
    apart::lemma_pairs_run(s, t, 356, 357, 361);
}

proof fn lemma_marks_are_no_pairs_1()
    requires
        apart::keys_in_order(order::pair_keys(CCC@)),
        apart::keys_in_order(order::triple_keys(DECOMPOSE_2@)),
        apart::keys_apart(order::pair_keys(CCC@), order::triple_keys(DECOMPOSE_2@), 357),
    ensures
        apart::keys_apart(order::pair_keys(CCC@), order::triple_keys(DECOMPOSE_2@), 593),
{
    let s = CCC@;
    let t = DECOMPOSE_2@;
    apart::lemma_pairs_run(s, t, 357, 359, 367);
    apart::lemma_pairs_run(s, t, 359, 363, 368);
    apart::lemma_pairs_run(s, t, 363, 366, 373);
    apart::lemma_pairs_run(s, t, 366, 368, 376);
    apart::lemma_pairs_run(s, t, 368, 387, 380);
    apart::lemma_pairs_run(s, t, 387, 389, 386);
    apart::lemma_pairs_run(s, t, 389, 390, 387);
    apart::lemma_pairs_run(s, t, 390, 395, 390);
    apart::lemma_pairs_run(s, t, 395, 400, 391);
    apart::lemma_pairs_run(s, t, 400, 401, 397);
    apart::lemma_pairs_run(s, t, 401, 459, 398);
    apart::lemma_pairs_run(s, t, 459, 460, 404);
    apart::lemma_pairs_run(s, t, 460, 567, 409);
    apart::lemma_pairs_run(s, t, 567, 593, 863);
}

proof fn lemma_marks_are_no_pairs_2()
    requires
        apart::keys_in_order(order::pair_keys(CCC@)),
        apart::keys_in_order(order::triple_keys(DECOMPOSE_2@)),
        apart::keys_apart(order::pair_keys(CCC@), order::triple_keys(DECOMPOSE_2@), 593),
    ensures
        apart::keys_apart(order::pair_keys(CCC@), order::triple_keys(DECOMPOSE_2@), 912),
{
    let s = CCC@;
    let t = DECOMPOSE_2@;
    apart::lemma_pairs_run(s, t, 593, 635, 908);
    apart::lemma_pairs_run(s, t, 635, 637, 934);
    apart::lemma_pairs_run(s, t, 637, 690, 966);
    apart::lemma_pairs_run(s, t, 690, 691, 967);
    apart::lemma_pairs_run(s, t, 691, 746, 1000);
    apart::lemma_pairs_run(s, t, 746, 751, 1003);
    apart::lemma_pairs_run(s, t, 751, 762, 1005);
    apart::lemma_pairs_run(s, t, 762, 778, 1007);
    apart::lemma_pairs_run(s, t, 778, 780, 1010);
    apart::lemma_pairs_run(s, t, 780, 788, 1012);
    apart::lemma_pairs_run(s, t, 788, 815, 1013);
    apart::lemma_pairs_run(s, t, 815, 845, 1020);
    apart::lemma_pairs_run(s, t, 845, 912, 1026);
}

/// Of what is no starter only tone marks decompose to two.
pub proof fn marks_are_no_pairs()
    ensures
        apart::keys_apart(
            order::pair_keys(classes::table()),
            order::triple_keys(pairs::table()),
            classes::table().len() as int,
        ),
{
    lemma_classes_in_order();
    lemma_pairs_in_order();
    classes::table_holds_the_rows();
    pairs::table_holds_the_rows();
    apart::lemma_keys_start(order::pair_keys(CCC@), order::triple_keys(DECOMPOSE_2@));
    lemma_marks_are_no_pairs_0();
    lemma_marks_are_no_pairs_1();
    lemma_marks_are_no_pairs_2();
}

} // verus!
