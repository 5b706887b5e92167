//! The code points of `\p{N}`.
use super::order;
use vstd::prelude::*;

verus! {

/// The code points of `\p{N}`, as inclusive ranges.
pub const NUMBER_RANGES: [(u32, u32); 134] = [
    (0x30, 0x39), (0xb2, 0xb3), (0xb9, 0xb9), (0xbc, 0xbe), (0x660, 0x669), (0x6f0, 0x6f9),
    (0x7c0, 0x7c9), (0x966, 0x96f), (0x9e6, 0x9ef), (0x9f4, 0x9f9), (0xa66, 0xa6f), (0xae6, 0xaef),
    (0xb66, 0xb6f), (0xb72, 0xb77), (0xbe6, 0xbf2), (0xc66, 0xc6f), (0xc78, 0xc7e), (0xce6, 0xcef),
    (0xd58, 0xd5e), (0xd66, 0xd78), (0xde6, 0xdef), (0xe50, 0xe59), (0xed0, 0xed9), (0xf20, 0xf33),
    (0x1040, 0x1049), (0x1090, 0x1099), (0x1369, 0x137c), (0x16ee, 0x16f0), (0x17e0, 0x17e9),
    (0x17f0, 0x17f9), (0x1810, 0x1819), (0x1946, 0x194f), (0x19d0, 0x19da), (0x1a80, 0x1a89),
    (0x1a90, 0x1a99), (0x1b50, 0x1b59), (0x1bb0, 0x1bb9), (0x1c40, 0x1c49), (0x1c50, 0x1c59),
    (0x2070, 0x2070), (0x2074, 0x2079), (0x2080, 0x2089), (0x2150, 0x2182), (0x2185, 0x2189),
    (0x2460, 0x249b), (0x24ea, 0x24ff), (0x2776, 0x2793), (0x2cfd, 0x2cfd), (0x3007, 0x3007),
    (0x3021, 0x3029), (0x3038, 0x303a), (0x3192, 0x3195), (0x3220, 0x3229), (0x3248, 0x324f),
    (0x3251, 0x325f), (0x3280, 0x3289), (0x32b1, 0x32bf), (0xa620, 0xa629), (0xa6e6, 0xa6ef),
    (0xa830, 0xa835), (0xa8d0, 0xa8d9), (0xa900, 0xa909), (0xa9d0, 0xa9d9), (0xa9f0, 0xa9f9),
    (0xaa50, 0xaa59), (0xabf0, 0xabf9), (0xff10, 0xff19), (0x10107, 0x10133), (0x10140, 0x10178),
    (0x1018a, 0x1018b), (0x102e1, 0x102fb), (0x10320, 0x10323), (0x10341, 0x10341),
    (0x1034a, 0x1034a), (0x103d1, 0x103d5), (0x104a0, 0x104a9), (0x10858, 0x1085f),
    (0x10879, 0x1087f), (0x108a7, 0x108af), (0x108fb, 0x108ff), (0x10916, 0x1091b),
    (0x109bc, 0x109bd), (0x109c0, 0x109cf), (0x109d2, 0x109ff), (0x10a40, 0x10a48),
    (0x10a7d, 0x10a7e), (0x10a9d, 0x10a9f), (0x10aeb, 0x10aef), (0x10b58, 0x10b5f),
    (0x10b78, 0x10b7f), (0x10ba9, 0x10baf), (0x10cfa, 0x10cff), (0x10d30, 0x10d39),
    (0x10e60, 0x10e7e), (0x10f1d, 0x10f26), (0x10f51, 0x10f54), (0x10fc5, 0x10fcb),
    (0x11052, 0x1106f), (0x110f0, 0x110f9), (0x11136, 0x1113f), (0x111d0, 0x111d9),
    (0x111e1, 0x111f4), (0x112f0, 0x112f9), (0x11450, 0x11459), (0x114d0, 0x114d9),
    (0x11650, 0x11659), (0x116c0, 0x116c9), (0x11730, 0x1173b), (0x118e0, 0x118f2),
    (0x11950, 0x11959), (0x11c50, 0x11c6c), (0x11d50, 0x11d59), (0x11da0, 0x11da9),
    (0x11fc0, 0x11fd4), (0x12400, 0x1246e), (0x16a60, 0x16a69), (0x16ac0, 0x16ac9),
    (0x16b50, 0x16b59), (0x16b5b, 0x16b61), (0x16e80, 0x16e96), (0x1d2e0, 0x1d2f3),
    (0x1d360, 0x1d378), (0x1d7ce, 0x1d7ff), (0x1e140, 0x1e149), (0x1e2f0, 0x1e2f9),
    (0x1e8c7, 0x1e8cf), (0x1e950, 0x1e959), (0x1ec71, 0x1ecab), (0x1ecad, 0x1ecaf),
    (0x1ecb1, 0x1ecb4), (0x1ed01, 0x1ed2d), (0x1ed2f, 0x1ed3d), (0x1f100, 0x1f10c),
    (0x1fbf0, 0x1fbf9),
];

/// The rows of [`NUMBER_RANGES`].
pub closed spec fn table() -> Seq<(u32, u32)> {
    NUMBER_RANGES@
}

/// The rows of [`NUMBER_RANGES`].
pub fn rows() -> (r: &'static [(u32, u32)])
    ensures
        r@ == table(),
{
    &NUMBER_RANGES
}

/// What the table holds.
pub proof fn table_holds_the_rows()
    ensures
        table() == NUMBER_RANGES@,
{
}

/// The rows are in order.
pub proof fn lemma_order()
    ensures
        order::sorted_ranges(table()),
{
    let t = NUMBER_RANGES@;
    order::lemma_ranges_start(t);
    order::lemma_ranges_block(t, 0, 0);
    order::lemma_ranges_block(t, 16, 16);
    order::lemma_ranges_block(t, 32, 32);
    order::lemma_ranges_block(t, 48, 48);
    order::lemma_ranges_block(t, 64, 64);
    order::lemma_ranges_block(t, 80, 80);
    order::lemma_ranges_block(t, 96, 96);
    order::lemma_ranges_block(t, 112, 112);
    order::lemma_ranges_block(t, 128, 118);
    order::lemma_ranges_sorted(t);
}

} // verus!
