//! No character is in two categories.
use crate::unicode_tables::apart;
use crate::unicode_tables::letters;
use crate::unicode_tables::letters::LETTER_RANGES;
use crate::unicode_tables::marks;
use crate::unicode_tables::marks::MARK_RANGES;
use crate::unicode_tables::numbers;
use crate::unicode_tables::numbers::NUMBER_RANGES;
use vstd::prelude::*;

verus! {

proof fn lemma_letters_in_order()
    ensures
        apart::are_in_order(letters::table()),
{
    reveal(apart::are_in_order);
    letters::lemma_order();
}

proof fn lemma_marks_in_order()
    ensures
        apart::are_in_order(marks::table()),
{
    reveal(apart::are_in_order);
    marks::lemma_order();
}

proof fn lemma_numbers_in_order()
    ensures
        apart::are_in_order(numbers::table()),
{
    reveal(apart::are_in_order);
    numbers::lemma_order();
}

proof fn lemma_marks_are_no_letters_0()
    requires
        apart::are_in_order(MARK_RANGES@),
        apart::are_in_order(LETTER_RANGES@),
        apart::ranges_apart(MARK_RANGES@, LETTER_RANGES@, 0),
    ensures
        apart::ranges_apart(MARK_RANGES@, LETTER_RANGES@, 31),
{
    let s = MARK_RANGES@;
    let t = LETTER_RANGES@;
    apart::lemma_ranges_run(s, t, 0, 1, 12);
    apart::lemma_ranges_run(s, t, 1, 2, 22);
    apart::lemma_ranges_run(s, t, 2, 7, 26);
    apart::lemma_ranges_run(s, t, 7, 8, 28);
    apart::lemma_ranges_run(s, t, 8, 9, 29);
    apart::lemma_ranges_run(s, t, 9, 10, 30);
    apart::lemma_ranges_run(s, t, 10, 12, 32);
    apart::lemma_ranges_run(s, t, 12, 14, 33);
    apart::lemma_ranges_run(s, t, 14, 15, 37);
    apart::lemma_ranges_run(s, t, 15, 16, 38);
    apart::lemma_ranges_run(s, t, 16, 17, 39);
    apart::lemma_ranges_run(s, t, 17, 18, 41);
    apart::lemma_ranges_run(s, t, 18, 19, 43);
    apart::lemma_ranges_run(s, t, 19, 20, 44);
    apart::lemma_ranges_run(s, t, 20, 21, 45);
    apart::lemma_ranges_run(s, t, 21, 22, 46);
    apart::lemma_ranges_run(s, t, 22, 23, 47);
    apart::lemma_ranges_run(s, t, 23, 24, 48);
    apart::lemma_ranges_run(s, t, 24, 25, 51);
    apart::lemma_ranges_run(s, t, 25, 27, 52);
    apart::lemma_ranges_run(s, t, 27, 28, 53);
    apart::lemma_ranges_run(s, t, 28, 29, 54);
    apart::lemma_ranges_run(s, t, 29, 30, 55);
    apart::lemma_ranges_run(s, t, 30, 31, 56);
}

proof fn lemma_marks_are_no_letters_1()
    requires
        apart::are_in_order(MARK_RANGES@),
        apart::are_in_order(LETTER_RANGES@),
        apart::ranges_apart(MARK_RANGES@, LETTER_RANGES@, 31),
    ensures
        apart::ranges_apart(MARK_RANGES@, LETTER_RANGES@, 75),
{
    let s = MARK_RANGES@;
    let t = LETTER_RANGES@;
    apart::lemma_ranges_run(s, t, 31, 32, 57);
    apart::lemma_ranges_run(s, t, 32, 33, 63);
    apart::lemma_ranges_run(s, t, 33, 36, 64);
    apart::lemma_ranges_run(s, t, 36, 37, 65);
    apart::lemma_ranges_run(s, t, 37, 38, 67);
    apart::lemma_ranges_run(s, t, 38, 40, 69);
    apart::lemma_ranges_run(s, t, 40, 45, 76);
    apart::lemma_ranges_run(s, t, 45, 46, 78);
    apart::lemma_ranges_run(s, t, 46, 48, 79);
    apart::lemma_ranges_run(s, t, 48, 49, 85);
    apart::lemma_ranges_run(s, t, 49, 52, 86);
    apart::lemma_ranges_run(s, t, 52, 53, 88);
    apart::lemma_ranges_run(s, t, 53, 55, 89);
    apart::lemma_ranges_run(s, t, 55, 56, 95);
    apart::lemma_ranges_run(s, t, 56, 60, 96);
    apart::lemma_ranges_run(s, t, 60, 61, 98);
    apart::lemma_ranges_run(s, t, 61, 62, 99);
    apart::lemma_ranges_run(s, t, 62, 65, 109);
    apart::lemma_ranges_run(s, t, 65, 67, 110);
    apart::lemma_ranges_run(s, t, 67, 68, 114);
    apart::lemma_ranges_run(s, t, 68, 72, 115);
    apart::lemma_ranges_run(s, t, 72, 73, 118);
    apart::lemma_ranges_run(s, t, 73, 74, 119);
    apart::lemma_ranges_run(s, t, 74, 75, 124);
}

proof fn lemma_marks_are_no_letters_2()
    requires
        apart::are_in_order(MARK_RANGES@),
        apart::are_in_order(LETTER_RANGES@),
        apart::ranges_apart(MARK_RANGES@, LETTER_RANGES@, 75),
    ensures
        apart::ranges_apart(MARK_RANGES@, LETTER_RANGES@, 115),
{
    let s = MARK_RANGES@;
    let t = LETTER_RANGES@;
    apart::lemma_ranges_run(s, t, 75, 79, 125);
    apart::lemma_ranges_run(s, t, 79, 80, 127);
    apart::lemma_ranges_run(s, t, 80, 81, 128);
    apart::lemma_ranges_run(s, t, 81, 82, 131);
    apart::lemma_ranges_run(s, t, 82, 85, 132);
    apart::lemma_ranges_run(s, t, 85, 86, 134);
    apart::lemma_ranges_run(s, t, 86, 87, 135);
    apart::lemma_ranges_run(s, t, 87, 88, 136);
    apart::lemma_ranges_run(s, t, 88, 93, 141);
    apart::lemma_ranges_run(s, t, 93, 94, 142);
    apart::lemma_ranges_run(s, t, 94, 95, 143);
    apart::lemma_ranges_run(s, t, 95, 96, 144);
    apart::lemma_ranges_run(s, t, 96, 97, 150);
    apart::lemma_ranges_run(s, t, 97, 98, 151);
    apart::lemma_ranges_run(s, t, 98, 99, 154);
    apart::lemma_ranges_run(s, t, 99, 104, 156);
    apart::lemma_ranges_run(s, t, 104, 106, 158);
    apart::lemma_ranges_run(s, t, 106, 109, 159);
    apart::lemma_ranges_run(s, t, 109, 110, 160);
    apart::lemma_ranges_run(s, t, 110, 111, 162);
    apart::lemma_ranges_run(s, t, 111, 112, 163);
    apart::lemma_ranges_run(s, t, 112, 113, 164);
    apart::lemma_ranges_run(s, t, 113, 114, 165);
    apart::lemma_ranges_run(s, t, 114, 115, 166);
}

proof fn lemma_marks_are_no_letters_3()
    requires
        apart::are_in_order(MARK_RANGES@),
        apart::are_in_order(LETTER_RANGES@),
        apart::ranges_apart(MARK_RANGES@, LETTER_RANGES@, 115),
    ensures
        apart::ranges_apart(MARK_RANGES@, LETTER_RANGES@, 148),
{
    let s = MARK_RANGES@;
    let t = LETTER_RANGES@;
    apart::lemma_ranges_run(s, t, 115, 116, 167);
    apart::lemma_ranges_run(s, t, 116, 118, 168);
    apart::lemma_ranges_run(s, t, 118, 119, 188);
    apart::lemma_ranges_run(s, t, 119, 120, 197);
    apart::lemma_ranges_run(s, t, 120, 121, 198);
    apart::lemma_ranges_run(s, t, 121, 122, 199);
    apart::lemma_ranges_run(s, t, 122, 123, 201);
    apart::lemma_ranges_run(s, t, 123, 124, 202);
    apart::lemma_ranges_run(s, t, 124, 127, 204);
    apart::lemma_ranges_run(s, t, 127, 128, 206);
    apart::lemma_ranges_run(s, t, 128, 129, 207);
    apart::lemma_ranges_run(s, t, 129, 131, 210);
    apart::lemma_ranges_run(s, t, 131, 132, 215);
    apart::lemma_ranges_run(s, t, 132, 135, 216);
    apart::lemma_ranges_run(s, t, 135, 137, 217);
    apart::lemma_ranges_run(s, t, 137, 138, 218);
    apart::lemma_ranges_run(s, t, 138, 140, 219);
    apart::lemma_ranges_run(s, t, 140, 141, 220);
    apart::lemma_ranges_run(s, t, 141, 142, 222);
    apart::lemma_ranges_run(s, t, 142, 143, 223);
    apart::lemma_ranges_run(s, t, 143, 145, 228);
    apart::lemma_ranges_run(s, t, 145, 146, 229);
    apart::lemma_ranges_run(s, t, 146, 147, 230);
    apart::lemma_ranges_run(s, t, 147, 148, 231);
}

proof fn lemma_marks_are_no_letters_4()
    requires
        apart::are_in_order(MARK_RANGES@),
        apart::are_in_order(LETTER_RANGES@),
        apart::ranges_apart(MARK_RANGES@, LETTER_RANGES@, 148),
    ensures
        apart::ranges_apart(MARK_RANGES@, LETTER_RANGES@, 175),
{
    let s = MARK_RANGES@;
    let t = LETTER_RANGES@;
    apart::lemma_ranges_run(s, t, 148, 149, 233);
    apart::lemma_ranges_run(s, t, 149, 150, 255);
    apart::lemma_ranges_run(s, t, 150, 151, 271);
    apart::lemma_ranges_run(s, t, 151, 152, 277);
    apart::lemma_ranges_run(s, t, 152, 153, 286);
    apart::lemma_ranges_run(s, t, 153, 154, 288);
    apart::lemma_ranges_run(s, t, 154, 155, 291);
    apart::lemma_ranges_run(s, t, 155, 157, 305);
    apart::lemma_ranges_run(s, t, 157, 158, 306);
    apart::lemma_ranges_run(s, t, 158, 159, 307);
    apart::lemma_ranges_run(s, t, 159, 160, 314);
    apart::lemma_ranges_run(s, t, 160, 161, 315);
    apart::lemma_ranges_run(s, t, 161, 162, 316);
    apart::lemma_ranges_run(s, t, 162, 164, 317);
    apart::lemma_ranges_run(s, t, 164, 165, 318);
    apart::lemma_ranges_run(s, t, 165, 167, 319);
    apart::lemma_ranges_run(s, t, 167, 168, 322);
    apart::lemma_ranges_run(s, t, 168, 169, 323);
    apart::lemma_ranges_run(s, t, 169, 170, 324);
    apart::lemma_ranges_run(s, t, 170, 171, 325);
    apart::lemma_ranges_run(s, t, 171, 172, 326);
    apart::lemma_ranges_run(s, t, 172, 173, 328);
    apart::lemma_ranges_run(s, t, 173, 174, 331);
    apart::lemma_ranges_run(s, t, 174, 175, 332);
}

proof fn lemma_marks_are_no_letters_5()
    requires
        apart::are_in_order(MARK_RANGES@),
        apart::are_in_order(LETTER_RANGES@),
        apart::ranges_apart(MARK_RANGES@, LETTER_RANGES@, 175),
    ensures
        apart::ranges_apart(MARK_RANGES@, LETTER_RANGES@, 205),
{
    let s = MARK_RANGES@;
    let t = LETTER_RANGES@;
    apart::lemma_ranges_run(s, t, 175, 176, 333);
    apart::lemma_ranges_run(s, t, 176, 177, 335);
    apart::lemma_ranges_run(s, t, 177, 178, 336);
    apart::lemma_ranges_run(s, t, 178, 179, 337);
    apart::lemma_ranges_run(s, t, 179, 180, 338);
    apart::lemma_ranges_run(s, t, 180, 181, 339);
    apart::lemma_ranges_run(s, t, 181, 182, 340);
    apart::lemma_ranges_run(s, t, 182, 183, 343);
    apart::lemma_ranges_run(s, t, 183, 184, 344);
    apart::lemma_ranges_run(s, t, 184, 186, 352);
    apart::lemma_ranges_run(s, t, 186, 187, 360);
    apart::lemma_ranges_run(s, t, 187, 189, 371);
    apart::lemma_ranges_run(s, t, 189, 190, 387);
    apart::lemma_ranges_run(s, t, 190, 191, 389);
    apart::lemma_ranges_run(s, t, 191, 192, 393);
    apart::lemma_ranges_run(s, t, 192, 195, 430);
    apart::lemma_ranges_run(s, t, 195, 197, 433);
    apart::lemma_ranges_run(s, t, 197, 198, 437);
    apart::lemma_ranges_run(s, t, 198, 199, 445);
    apart::lemma_ranges_run(s, t, 199, 200, 446);
    apart::lemma_ranges_run(s, t, 200, 201, 450);
    apart::lemma_ranges_run(s, t, 201, 202, 451);
    apart::lemma_ranges_run(s, t, 202, 203, 453);
    apart::lemma_ranges_run(s, t, 203, 205, 454);
}

proof fn lemma_marks_are_no_letters_6()
    requires
        apart::are_in_order(MARK_RANGES@),
        apart::are_in_order(LETTER_RANGES@),
        apart::ranges_apart(MARK_RANGES@, LETTER_RANGES@, 205),
    ensures
        apart::ranges_apart(MARK_RANGES@, LETTER_RANGES@, 238),
{
    let s = MARK_RANGES@;
    let t = LETTER_RANGES@;
    apart::lemma_ranges_run(s, t, 205, 206, 455);
    apart::lemma_ranges_run(s, t, 206, 207, 456);
    apart::lemma_ranges_run(s, t, 207, 209, 457);
    apart::lemma_ranges_run(s, t, 209, 210, 458);
    apart::lemma_ranges_run(s, t, 210, 211, 459);
    apart::lemma_ranges_run(s, t, 211, 212, 460);
    apart::lemma_ranges_run(s, t, 212, 213, 462);
    apart::lemma_ranges_run(s, t, 213, 214, 463);
    apart::lemma_ranges_run(s, t, 214, 215, 464);
    apart::lemma_ranges_run(s, t, 215, 217, 465);
    apart::lemma_ranges_run(s, t, 217, 219, 469);
    apart::lemma_ranges_run(s, t, 219, 221, 475);
    apart::lemma_ranges_run(s, t, 221, 222, 481);
    apart::lemma_ranges_run(s, t, 222, 225, 482);
    apart::lemma_ranges_run(s, t, 225, 226, 483);
    apart::lemma_ranges_run(s, t, 226, 229, 484);
    apart::lemma_ranges_run(s, t, 229, 230, 485);
    apart::lemma_ranges_run(s, t, 230, 231, 486);
    apart::lemma_ranges_run(s, t, 231, 232, 488);
    apart::lemma_ranges_run(s, t, 232, 234, 491);
    apart::lemma_ranges_run(s, t, 234, 235, 492);
    apart::lemma_ranges_run(s, t, 235, 236, 493);
    apart::lemma_ranges_run(s, t, 236, 237, 495);
    apart::lemma_ranges_run(s, t, 237, 238, 497);
}

proof fn lemma_marks_are_no_letters_7()
    requires
        apart::are_in_order(MARK_RANGES@),
        apart::are_in_order(LETTER_RANGES@),
        apart::ranges_apart(MARK_RANGES@, LETTER_RANGES@, 238),
    ensures
        apart::ranges_apart(MARK_RANGES@, LETTER_RANGES@, 288),
{
    let s = MARK_RANGES@;
    let t = LETTER_RANGES@;
    apart::lemma_ranges_run(s, t, 238, 239, 499);
    apart::lemma_ranges_run(s, t, 239, 242, 505);
    apart::lemma_ranges_run(s, t, 242, 243, 506);
    apart::lemma_ranges_run(s, t, 243, 244, 507);
    apart::lemma_ranges_run(s, t, 244, 246, 509);
    apart::lemma_ranges_run(s, t, 246, 247, 511);
    apart::lemma_ranges_run(s, t, 247, 248, 512);
    apart::lemma_ranges_run(s, t, 248, 249, 513);
    apart::lemma_ranges_run(s, t, 249, 251, 514);
    apart::lemma_ranges_run(s, t, 251, 252, 515);
    apart::lemma_ranges_run(s, t, 252, 253, 516);
    apart::lemma_ranges_run(s, t, 253, 255, 520);
    apart::lemma_ranges_run(s, t, 255, 257, 522);
    apart::lemma_ranges_run(s, t, 257, 261, 525);
    apart::lemma_ranges_run(s, t, 261, 262, 526);
    apart::lemma_ranges_run(s, t, 262, 265, 529);
    apart::lemma_ranges_run(s, t, 265, 266, 531);
    apart::lemma_ranges_run(s, t, 266, 267, 541);
    apart::lemma_ranges_run(s, t, 267, 268, 542);
    apart::lemma_ranges_run(s, t, 268, 269, 547);
    apart::lemma_ranges_run(s, t, 269, 271, 548);
    apart::lemma_ranges_run(s, t, 271, 273, 551);
    apart::lemma_ranges_run(s, t, 273, 282, 565);
    apart::lemma_ranges_run(s, t, 282, 288, 595);
}

proof fn lemma_marks_are_no_letters_8()
    requires
        apart::are_in_order(MARK_RANGES@),
        apart::are_in_order(LETTER_RANGES@),
        apart::ranges_apart(MARK_RANGES@, LETTER_RANGES@, 288),
    ensures
        apart::ranges_apart(MARK_RANGES@, LETTER_RANGES@, 299),
{
    let s = MARK_RANGES@;
    let t = LETTER_RANGES@;
    apart::lemma_ranges_run(s, t, 288, 293, 596);
    apart::lemma_ranges_run(s, t, 293, 294, 597);
    apart::lemma_ranges_run(s, t, 294, 295, 600);
    apart::lemma_ranges_run(s, t, 295, 296, 601);
    apart::lemma_ranges_run(s, t, 296, 297, 606);
    apart::lemma_ranges_run(s, t, 297, 298, 607);
    apart::lemma_ranges_run(s, t, 298, 299, 648);
}

/// No mark is a letter.
pub proof fn marks_are_no_letters()
    ensures
        apart::ranges_apart(marks::table(), letters::table(), marks::table().len() as int),
{
    lemma_marks_in_order();
    lemma_letters_in_order();
    marks::table_holds_the_rows();
    letters::table_holds_the_rows();
    apart::lemma_ranges_start(MARK_RANGES@, LETTER_RANGES@);
    lemma_marks_are_no_letters_0();
    lemma_marks_are_no_letters_1();
    lemma_marks_are_no_letters_2();
    lemma_marks_are_no_letters_3();
    lemma_marks_are_no_letters_4();
    lemma_marks_are_no_letters_5();
    lemma_marks_are_no_letters_6();
    lemma_marks_are_no_letters_7();
    lemma_marks_are_no_letters_8();
}

proof fn lemma_numbers_are_no_letters_0()
    requires
        apart::are_in_order(NUMBER_RANGES@),
        apart::are_in_order(LETTER_RANGES@),
        apart::ranges_apart(NUMBER_RANGES@, LETTER_RANGES@, 0),
    ensures
        apart::ranges_apart(NUMBER_RANGES@, LETTER_RANGES@, 25),
{
    let s = NUMBER_RANGES@;
    let t = LETTER_RANGES@;
    apart::lemma_ranges_run(s, t, 0, 1, 0);
    apart::lemma_ranges_run(s, t, 1, 2, 3);
    apart::lemma_ranges_run(s, t, 2, 3, 4);
    apart::lemma_ranges_run(s, t, 3, 4, 5);
    apart::lemma_ranges_run(s, t, 4, 5, 29);
    apart::lemma_ranges_run(s, t, 5, 6, 34);
    apart::lemma_ranges_run(s, t, 6, 7, 40);
    apart::lemma_ranges_run(s, t, 7, 8, 56);
    apart::lemma_ranges_run(s, t, 8, 9, 67);
    apart::lemma_ranges_run(s, t, 9, 10, 68);
    apart::lemma_ranges_run(s, t, 10, 11, 78);
    apart::lemma_ranges_run(s, t, 11, 12, 88);
    apart::lemma_ranges_run(s, t, 12, 13, 98);
    apart::lemma_ranges_run(s, t, 13, 14, 99);
    apart::lemma_ranges_run(s, t, 14, 15, 110);
    apart::lemma_ranges_run(s, t, 15, 17, 118);
    apart::lemma_ranges_run(s, t, 17, 18, 127);
    apart::lemma_ranges_run(s, t, 18, 19, 134);
    apart::lemma_ranges_run(s, t, 19, 20, 135);
    apart::lemma_ranges_run(s, t, 20, 21, 141);
    apart::lemma_ranges_run(s, t, 21, 22, 144);
    apart::lemma_ranges_run(s, t, 22, 23, 154);
    apart::lemma_ranges_run(s, t, 23, 24, 156);
    apart::lemma_ranges_run(s, t, 24, 25, 161);
}

proof fn lemma_numbers_are_no_letters_1()
    requires
        apart::are_in_order(NUMBER_RANGES@),
        apart::are_in_order(LETTER_RANGES@),
        apart::ranges_apart(NUMBER_RANGES@, LETTER_RANGES@, 25),
    ensures
        apart::ranges_apart(NUMBER_RANGES@, LETTER_RANGES@, 60),
{
    let s = NUMBER_RANGES@;
    let t = LETTER_RANGES@;
    apart::lemma_ranges_run(s, t, 25, 26, 168);
    apart::lemma_ranges_run(s, t, 26, 27, 188);
    apart::lemma_ranges_run(s, t, 27, 28, 195);
    apart::lemma_ranges_run(s, t, 28, 31, 204);
    apart::lemma_ranges_run(s, t, 31, 32, 210);
    apart::lemma_ranges_run(s, t, 32, 33, 214);
    apart::lemma_ranges_run(s, t, 33, 35, 216);
    apart::lemma_ranges_run(s, t, 35, 36, 219);
    apart::lemma_ranges_run(s, t, 36, 37, 221);
    apart::lemma_ranges_run(s, t, 37, 38, 223);
    apart::lemma_ranges_run(s, t, 38, 39, 224);
    apart::lemma_ranges_run(s, t, 39, 40, 252);
    apart::lemma_ranges_run(s, t, 40, 41, 253);
    apart::lemma_ranges_run(s, t, 41, 42, 254);
    apart::lemma_ranges_run(s, t, 42, 43, 268);
    apart::lemma_ranges_run(s, t, 43, 47, 269);
    apart::lemma_ranges_run(s, t, 47, 48, 272);
    apart::lemma_ranges_run(s, t, 48, 50, 288);
    apart::lemma_ranges_run(s, t, 50, 51, 289);
    apart::lemma_ranges_run(s, t, 51, 52, 296);
    apart::lemma_ranges_run(s, t, 52, 57, 298);
    apart::lemma_ranges_run(s, t, 57, 58, 303);
    apart::lemma_ranges_run(s, t, 58, 59, 307);
    apart::lemma_ranges_run(s, t, 59, 60, 317);
}

proof fn lemma_numbers_are_no_letters_2()
    requires
        apart::are_in_order(NUMBER_RANGES@),
        apart::are_in_order(LETTER_RANGES@),
        apart::ranges_apart(NUMBER_RANGES@, LETTER_RANGES@, 60),
    ensures
        apart::ranges_apart(NUMBER_RANGES@, LETTER_RANGES@, 87),
{
    let s = NUMBER_RANGES@;
    let t = LETTER_RANGES@;
    apart::lemma_ranges_run(s, t, 60, 61, 319);
    apart::lemma_ranges_run(s, t, 61, 62, 322);
    apart::lemma_ranges_run(s, t, 62, 63, 327);
    apart::lemma_ranges_run(s, t, 63, 64, 329);
    apart::lemma_ranges_run(s, t, 64, 65, 333);
    apart::lemma_ranges_run(s, t, 65, 66, 352);
    apart::lemma_ranges_run(s, t, 66, 67, 373);
    apart::lemma_ranges_run(s, t, 67, 70, 387);
    apart::lemma_ranges_run(s, t, 70, 71, 389);
    apart::lemma_ranges_run(s, t, 71, 72, 390);
    apart::lemma_ranges_run(s, t, 72, 73, 391);
    apart::lemma_ranges_run(s, t, 73, 74, 392);
    apart::lemma_ranges_run(s, t, 74, 75, 396);
    apart::lemma_ranges_run(s, t, 75, 76, 397);
    apart::lemma_ranges_run(s, t, 76, 77, 421);
    apart::lemma_ranges_run(s, t, 77, 78, 422);
    apart::lemma_ranges_run(s, t, 78, 79, 423);
    apart::lemma_ranges_run(s, t, 79, 80, 425);
    apart::lemma_ranges_run(s, t, 80, 81, 426);
    apart::lemma_ranges_run(s, t, 81, 82, 428);
    apart::lemma_ranges_run(s, t, 82, 84, 429);
    apart::lemma_ranges_run(s, t, 84, 85, 433);
    apart::lemma_ranges_run(s, t, 85, 86, 434);
    apart::lemma_ranges_run(s, t, 86, 87, 435);
}

proof fn lemma_numbers_are_no_letters_3()
    requires
        apart::are_in_order(NUMBER_RANGES@),
        apart::are_in_order(LETTER_RANGES@),
        apart::ranges_apart(NUMBER_RANGES@, LETTER_RANGES@, 87),
    ensures
        apart::ranges_apart(NUMBER_RANGES@, LETTER_RANGES@, 112),
{
    let s = NUMBER_RANGES@;
    let t = LETTER_RANGES@;
    apart::lemma_ranges_run(s, t, 87, 88, 437);
    apart::lemma_ranges_run(s, t, 88, 89, 439);
    apart::lemma_ranges_run(s, t, 89, 90, 440);
    apart::lemma_ranges_run(s, t, 90, 91, 441);
    apart::lemma_ranges_run(s, t, 91, 92, 444);
    apart::lemma_ranges_run(s, t, 92, 94, 445);
    apart::lemma_ranges_run(s, t, 94, 95, 448);
    apart::lemma_ranges_run(s, t, 95, 96, 450);
    apart::lemma_ranges_run(s, t, 96, 97, 452);
    apart::lemma_ranges_run(s, t, 97, 98, 454);
    apart::lemma_ranges_run(s, t, 98, 99, 458);
    apart::lemma_ranges_run(s, t, 99, 100, 459);
    apart::lemma_ranges_run(s, t, 100, 101, 465);
    apart::lemma_ranges_run(s, t, 101, 102, 467);
    apart::lemma_ranges_run(s, t, 102, 103, 475);
    apart::lemma_ranges_run(s, t, 103, 104, 486);
    apart::lemma_ranges_run(s, t, 104, 105, 490);
    apart::lemma_ranges_run(s, t, 105, 106, 494);
    apart::lemma_ranges_run(s, t, 106, 107, 496);
    apart::lemma_ranges_run(s, t, 107, 108, 497);
    apart::lemma_ranges_run(s, t, 108, 109, 500);
    apart::lemma_ranges_run(s, t, 109, 110, 507);
    apart::lemma_ranges_run(s, t, 110, 111, 521);
    apart::lemma_ranges_run(s, t, 111, 112, 526);
}

proof fn lemma_numbers_are_no_letters_4()
    requires
        apart::are_in_order(NUMBER_RANGES@),
        apart::are_in_order(LETTER_RANGES@),
        apart::ranges_apart(NUMBER_RANGES@, LETTER_RANGES@, 112),
    ensures
        apart::ranges_apart(NUMBER_RANGES@, LETTER_RANGES@, 134),
{
    let s = NUMBER_RANGES@;
    let t = LETTER_RANGES@;
    apart::lemma_ranges_run(s, t, 112, 113, 530);
    apart::lemma_ranges_run(s, t, 113, 114, 532);
    apart::lemma_ranges_run(s, t, 114, 115, 533);
    apart::lemma_ranges_run(s, t, 115, 116, 539);
    apart::lemma_ranges_run(s, t, 116, 117, 540);
    apart::lemma_ranges_run(s, t, 117, 119, 543);
    apart::lemma_ranges_run(s, t, 119, 120, 546);
    apart::lemma_ranges_run(s, t, 120, 122, 565);
    apart::lemma_ranges_run(s, t, 122, 123, 595);
    apart::lemma_ranges_run(s, t, 123, 124, 598);
    apart::lemma_ranges_run(s, t, 124, 125, 601);
    apart::lemma_ranges_run(s, t, 125, 126, 606);
    apart::lemma_ranges_run(s, t, 126, 132, 608);
    apart::lemma_ranges_run(s, t, 132, 134, 641);
}

/// No number is a letter.
pub proof fn numbers_are_no_letters()
    ensures
        apart::ranges_apart(numbers::table(), letters::table(), numbers::table().len() as int),
{
    lemma_numbers_in_order();
    lemma_letters_in_order();
    numbers::table_holds_the_rows();
    letters::table_holds_the_rows();
    apart::lemma_ranges_start(NUMBER_RANGES@, LETTER_RANGES@);
    lemma_numbers_are_no_letters_0();
    lemma_numbers_are_no_letters_1();
    lemma_numbers_are_no_letters_2();
    lemma_numbers_are_no_letters_3();
    lemma_numbers_are_no_letters_4();
}

proof fn lemma_numbers_are_no_marks_0()
    requires
        apart::are_in_order(NUMBER_RANGES@),
        apart::are_in_order(MARK_RANGES@),
        apart::ranges_apart(NUMBER_RANGES@, MARK_RANGES@, 0),
    ensures
        apart::ranges_apart(NUMBER_RANGES@, MARK_RANGES@, 33),
{
    let s = NUMBER_RANGES@;
    let t = MARK_RANGES@;
    apart::lemma_ranges_run(s, t, 0, 4, 0);
    apart::lemma_ranges_run(s, t, 4, 5, 9);
    apart::lemma_ranges_run(s, t, 5, 6, 14);
    apart::lemma_ranges_run(s, t, 6, 7, 17);
    apart::lemma_ranges_run(s, t, 7, 8, 31);
    apart::lemma_ranges_run(s, t, 8, 10, 38);
    apart::lemma_ranges_run(s, t, 10, 11, 45);
    apart::lemma_ranges_run(s, t, 11, 12, 53);
    apart::lemma_ranges_run(s, t, 12, 14, 61);
    apart::lemma_ranges_run(s, t, 14, 15, 66);
    apart::lemma_ranges_run(s, t, 15, 17, 73);
    apart::lemma_ranges_run(s, t, 17, 18, 80);
    apart::lemma_ranges_run(s, t, 18, 19, 86);
    apart::lemma_ranges_run(s, t, 19, 20, 87);
    apart::lemma_ranges_run(s, t, 20, 21, 92);
    apart::lemma_ranges_run(s, t, 21, 22, 96);
    apart::lemma_ranges_run(s, t, 22, 23, 99);
    apart::lemma_ranges_run(s, t, 23, 24, 100);
    apart::lemma_ranges_run(s, t, 24, 25, 110);
    apart::lemma_ranges_run(s, t, 25, 26, 117);
    apart::lemma_ranges_run(s, t, 26, 28, 119);
    apart::lemma_ranges_run(s, t, 28, 30, 125);
    apart::lemma_ranges_run(s, t, 30, 31, 127);
    apart::lemma_ranges_run(s, t, 31, 33, 131);
}

proof fn lemma_numbers_are_no_marks_1()
    requires
        apart::are_in_order(NUMBER_RANGES@),
        apart::are_in_order(MARK_RANGES@),
        apart::ranges_apart(NUMBER_RANGES@, MARK_RANGES@, 33),
    ensures
        apart::ranges_apart(NUMBER_RANGES@, MARK_RANGES@, 94),
{
    let s = NUMBER_RANGES@;
    let t = MARK_RANGES@;
    apart::lemma_ranges_run(s, t, 33, 35, 135);
    apart::lemma_ranges_run(s, t, 35, 36, 138);
    apart::lemma_ranges_run(s, t, 36, 37, 141);
    apart::lemma_ranges_run(s, t, 37, 39, 143);
    apart::lemma_ranges_run(s, t, 39, 42, 149);
    apart::lemma_ranges_run(s, t, 42, 47, 150);
    apart::lemma_ranges_run(s, t, 47, 48, 151);
    apart::lemma_ranges_run(s, t, 48, 50, 153);
    apart::lemma_ranges_run(s, t, 50, 51, 154);
    apart::lemma_ranges_run(s, t, 51, 58, 155);
    apart::lemma_ranges_run(s, t, 58, 59, 158);
    apart::lemma_ranges_run(s, t, 59, 60, 164);
    apart::lemma_ranges_run(s, t, 60, 61, 166);
    apart::lemma_ranges_run(s, t, 61, 62, 168);
    apart::lemma_ranges_run(s, t, 62, 63, 172);
    apart::lemma_ranges_run(s, t, 63, 64, 173);
    apart::lemma_ranges_run(s, t, 64, 65, 176);
    apart::lemma_ranges_run(s, t, 65, 66, 186);
    apart::lemma_ranges_run(s, t, 66, 70, 189);
    apart::lemma_ranges_run(s, t, 70, 74, 191);
    apart::lemma_ranges_run(s, t, 74, 84, 192);
    apart::lemma_ranges_run(s, t, 84, 87, 197);
    apart::lemma_ranges_run(s, t, 87, 92, 198);
    apart::lemma_ranges_run(s, t, 92, 94, 199);
}

proof fn lemma_numbers_are_no_marks_2()
    requires
        apart::are_in_order(NUMBER_RANGES@),
        apart::are_in_order(MARK_RANGES@),
        apart::ranges_apart(NUMBER_RANGES@, MARK_RANGES@, 94),
    ensures
        apart::ranges_apart(NUMBER_RANGES@, MARK_RANGES@, 134),
{
    let s = NUMBER_RANGES@;
    let t = MARK_RANGES@;
    apart::lemma_ranges_run(s, t, 94, 95, 200);
    apart::lemma_ranges_run(s, t, 95, 96, 201);
    apart::lemma_ranges_run(s, t, 96, 97, 202);
    apart::lemma_ranges_run(s, t, 97, 98, 204);
    apart::lemma_ranges_run(s, t, 98, 99, 209);
    apart::lemma_ranges_run(s, t, 99, 100, 211);
    apart::lemma_ranges_run(s, t, 100, 102, 217);
    apart::lemma_ranges_run(s, t, 102, 103, 220);
    apart::lemma_ranges_run(s, t, 103, 104, 230);
    apart::lemma_ranges_run(s, t, 104, 105, 232);
    apart::lemma_ranges_run(s, t, 105, 106, 236);
    apart::lemma_ranges_run(s, t, 106, 107, 237);
    apart::lemma_ranges_run(s, t, 107, 108, 238);
    apart::lemma_ranges_run(s, t, 108, 109, 239);
    apart::lemma_ranges_run(s, t, 109, 110, 244);
    apart::lemma_ranges_run(s, t, 110, 111, 255);
    apart::lemma_ranges_run(s, t, 111, 112, 262);
    apart::lemma_ranges_run(s, t, 112, 113, 265);
    apart::lemma_ranges_run(s, t, 113, 117, 266);
    apart::lemma_ranges_run(s, t, 117, 120, 268);
    apart::lemma_ranges_run(s, t, 120, 123, 282);
    apart::lemma_ranges_run(s, t, 123, 124, 294);
    apart::lemma_ranges_run(s, t, 124, 126, 296);
    apart::lemma_ranges_run(s, t, 126, 134, 298);
}

/// No number is a mark.
pub proof fn numbers_are_no_marks()
    ensures
        apart::ranges_apart(numbers::table(), marks::table(), numbers::table().len() as int),
{
    lemma_numbers_in_order();
    lemma_marks_in_order();
    numbers::table_holds_the_rows();
    marks::table_holds_the_rows();
    apart::lemma_ranges_start(NUMBER_RANGES@, MARK_RANGES@);
    lemma_numbers_are_no_marks_0();
    lemma_numbers_are_no_marks_1();
    lemma_numbers_are_no_marks_2();
}

} // verus!
