//! Canonical combining classes.
use super::order;
use vstd::prelude::*;

verus! {

/// The code points with a canonical combining class other than 0, and that class.
pub const CCC: [(u32, u32); 912] = [
    (0x300, 230), (0x301, 230), (0x302, 230), (0x303, 230), (0x304, 230), (0x305, 230),
    (0x306, 230), (0x307, 230), (0x308, 230), (0x309, 230), (0x30a, 230), (0x30b, 230),
    (0x30c, 230), (0x30d, 230), (0x30e, 230), (0x30f, 230), (0x310, 230), (0x311, 230),
    (0x312, 230), (0x313, 230), (0x314, 230), (0x315, 232), (0x316, 220), (0x317, 220),
    (0x318, 220), (0x319, 220), (0x31a, 232), (0x31b, 216), (0x31c, 220), (0x31d, 220),
    (0x31e, 220), (0x31f, 220), (0x320, 220), (0x321, 202), (0x322, 202), (0x323, 220),
    (0x324, 220), (0x325, 220), (0x326, 220), (0x327, 202), (0x328, 202), (0x329, 220),
    (0x32a, 220), (0x32b, 220), (0x32c, 220), (0x32d, 220), (0x32e, 220), (0x32f, 220),
    (0x330, 220), (0x331, 220), (0x332, 220), (0x333, 220), (0x334, 1), (0x335, 1), (0x336, 1),
    (0x337, 1), (0x338, 1), (0x339, 220), (0x33a, 220), (0x33b, 220), (0x33c, 220), (0x33d, 230),
    (0x33e, 230), (0x33f, 230), (0x340, 230), (0x341, 230), (0x342, 230), (0x343, 230),
    (0x344, 230), (0x345, 240), (0x346, 230), (0x347, 220), (0x348, 220), (0x349, 220),
    (0x34a, 230), (0x34b, 230), (0x34c, 230), (0x34d, 220), (0x34e, 220), (0x350, 230),
    (0x351, 230), (0x352, 230), (0x353, 220), (0x354, 220), (0x355, 220), (0x356, 220),
    (0x357, 230), (0x358, 232), (0x359, 220), (0x35a, 220), (0x35b, 230), (0x35c, 233),
    (0x35d, 234), (0x35e, 234), (0x35f, 233), (0x360, 234), (0x361, 234), (0x362, 233),
    (0x363, 230), (0x364, 230), (0x365, 230), (0x366, 230), (0x367, 230), (0x368, 230),
    (0x369, 230), (0x36a, 230), (0x36b, 230), (0x36c, 230), (0x36d, 230), (0x36e, 230),
    (0x36f, 230), (0x483, 230), (0x484, 230), (0x485, 230), (0x486, 230), (0x487, 230),
    (0x591, 220), (0x592, 230), (0x593, 230), (0x594, 230), (0x595, 230), (0x596, 220),
    (0x597, 230), (0x598, 230), (0x599, 230), (0x59a, 222), (0x59b, 220), (0x59c, 230),
    (0x59d, 230), (0x59e, 230), (0x59f, 230), (0x5a0, 230), (0x5a1, 230), (0x5a2, 220),
    (0x5a3, 220), (0x5a4, 220), (0x5a5, 220), (0x5a6, 220), (0x5a7, 220), (0x5a8, 230),
    (0x5a9, 230), (0x5aa, 220), (0x5ab, 230), (0x5ac, 230), (0x5ad, 222), (0x5ae, 228),
    (0x5af, 230), (0x5b0, 10), (0x5b1, 11), (0x5b2, 12), (0x5b3, 13), (0x5b4, 14), (0x5b5, 15),
    (0x5b6, 16), (0x5b7, 17), (0x5b8, 18), (0x5b9, 19), (0x5ba, 19), (0x5bb, 20), (0x5bc, 21),
    (0x5bd, 22), (0x5bf, 23), (0x5c1, 24), (0x5c2, 25), (0x5c4, 230), (0x5c5, 220), (0x5c7, 18),
    (0x610, 230), (0x611, 230), (0x612, 230), (0x613, 230), (0x614, 230), (0x615, 230),
    (0x616, 230), (0x617, 230), (0x618, 30), (0x619, 31), (0x61a, 32), (0x64b, 27), (0x64c, 28),
    (0x64d, 29), (0x64e, 30), (0x64f, 31), (0x650, 32), (0x651, 33), (0x652, 34), (0x653, 230),
    (0x654, 230), (0x655, 220), (0x656, 220), (0x657, 230), (0x658, 230), (0x659, 230),
    (0x65a, 230), (0x65b, 230), (0x65c, 220), (0x65d, 230), (0x65e, 230), (0x65f, 220), (0x670, 35),
    (0x6d6, 230), (0x6d7, 230), (0x6d8, 230), (0x6d9, 230), (0x6da, 230), (0x6db, 230),
    (0x6dc, 230), (0x6df, 230), (0x6e0, 230), (0x6e1, 230), (0x6e2, 230), (0x6e3, 220),
    (0x6e4, 230), (0x6e7, 230), (0x6e8, 230), (0x6ea, 220), (0x6eb, 230), (0x6ec, 230),
    (0x6ed, 220), (0x711, 36), (0x730, 230), (0x731, 220), (0x732, 230), (0x733, 230), (0x734, 220),
    (0x735, 230), (0x736, 230), (0x737, 220), (0x738, 220), (0x739, 220), (0x73a, 230),
    (0x73b, 220), (0x73c, 220), (0x73d, 230), (0x73e, 220), (0x73f, 230), (0x740, 230),
    (0x741, 230), (0x742, 220), (0x743, 230), (0x744, 220), (0x745, 230), (0x746, 220),
    (0x747, 230), (0x748, 220), (0x749, 230), (0x74a, 230), (0x7eb, 230), (0x7ec, 230),
    (0x7ed, 230), (0x7ee, 230), (0x7ef, 230), (0x7f0, 230), (0x7f1, 230), (0x7f2, 220),
    (0x7f3, 230), (0x7fd, 220), (0x816, 230), (0x817, 230), (0x818, 230), (0x819, 230),
    (0x81b, 230), (0x81c, 230), (0x81d, 230), (0x81e, 230), (0x81f, 230), (0x820, 230),
    (0x821, 230), (0x822, 230), (0x823, 230), (0x825, 230), (0x826, 230), (0x827, 230),
    (0x829, 230), (0x82a, 230), (0x82b, 230), (0x82c, 230), (0x82d, 230), (0x859, 220),
    (0x85a, 220), (0x85b, 220), (0x898, 230), (0x899, 220), (0x89a, 220), (0x89b, 220),
    (0x89c, 230), (0x89d, 230), (0x89e, 230), (0x89f, 230), (0x8ca, 230), (0x8cb, 230),
    (0x8cc, 230), (0x8cd, 230), (0x8ce, 230), (0x8cf, 220), (0x8d0, 220), (0x8d1, 220),
    (0x8d2, 220), (0x8d3, 220), (0x8d4, 230), (0x8d5, 230), (0x8d6, 230), (0x8d7, 230),
    (0x8d8, 230), (0x8d9, 230), (0x8da, 230), (0x8db, 230), (0x8dc, 230), (0x8dd, 230),
    (0x8de, 230), (0x8df, 230), (0x8e0, 230), (0x8e1, 230), (0x8e3, 220), (0x8e4, 230),
    (0x8e5, 230), (0x8e6, 220), (0x8e7, 230), (0x8e8, 230), (0x8e9, 220), (0x8ea, 230),
    (0x8eb, 230), (0x8ec, 230), (0x8ed, 220), (0x8ee, 220), (0x8ef, 220), (0x8f0, 27), (0x8f1, 28),
    (0x8f2, 29), (0x8f3, 230), (0x8f4, 230), (0x8f5, 230), (0x8f6, 220), (0x8f7, 230), (0x8f8, 230),
    (0x8f9, 220), (0x8fa, 220), (0x8fb, 230), (0x8fc, 230), (0x8fd, 230), (0x8fe, 230),
    (0x8ff, 230), (0x93c, 7), (0x94d, 9), (0x951, 230), (0x952, 220), (0x953, 230), (0x954, 230),
    (0x9bc, 7), (0x9cd, 9), (0x9fe, 230), (0xa3c, 7), (0xa4d, 9), (0xabc, 7), (0xacd, 9),
    (0xb3c, 7), (0xb4d, 9), (0xbcd, 9), (0xc3c, 7), (0xc4d, 9), (0xc55, 84), (0xc56, 91),
    (0xcbc, 7), (0xccd, 9), (0xd3b, 9), (0xd3c, 9), (0xd4d, 9), (0xdca, 9), (0xe38, 103),
    (0xe39, 103), (0xe3a, 9), (0xe48, 107), (0xe49, 107), (0xe4a, 107), (0xe4b, 107), (0xeb8, 118),
    (0xeb9, 118), (0xeba, 9), (0xec8, 122), (0xec9, 122), (0xeca, 122), (0xecb, 122), (0xf18, 220),
    (0xf19, 220), (0xf35, 220), (0xf37, 220), (0xf39, 216), (0xf71, 129), (0xf72, 130),
    (0xf74, 132), (0xf7a, 130), (0xf7b, 130), (0xf7c, 130), (0xf7d, 130), (0xf80, 130),
    (0xf82, 230), (0xf83, 230), (0xf84, 9), (0xf86, 230), (0xf87, 230), (0xfc6, 220), (0x1037, 7),
    (0x1039, 9), (0x103a, 9), (0x108d, 220), (0x135d, 230), (0x135e, 230), (0x135f, 230),
    (0x1714, 9), (0x1715, 9), (0x1734, 9), (0x17d2, 9), (0x17dd, 230), (0x18a9, 228), (0x1939, 222),
    (0x193a, 230), (0x193b, 220), (0x1a17, 230), (0x1a18, 220), (0x1a60, 9), (0x1a75, 230),
    (0x1a76, 230), (0x1a77, 230), (0x1a78, 230), (0x1a79, 230), (0x1a7a, 230), (0x1a7b, 230),
    (0x1a7c, 230), (0x1a7f, 220), (0x1ab0, 230), (0x1ab1, 230), (0x1ab2, 230), (0x1ab3, 230),
    (0x1ab4, 230), (0x1ab5, 220), (0x1ab6, 220), (0x1ab7, 220), (0x1ab8, 220), (0x1ab9, 220),
    (0x1aba, 220), (0x1abb, 230), (0x1abc, 230), (0x1abd, 220), (0x1abf, 220), (0x1ac0, 220),
    (0x1ac1, 230), (0x1ac2, 230), (0x1ac3, 220), (0x1ac4, 220), (0x1ac5, 230), (0x1ac6, 230),
    (0x1ac7, 230), (0x1ac8, 230), (0x1ac9, 230), (0x1aca, 220), (0x1acb, 230), (0x1acc, 230),
    (0x1acd, 230), (0x1ace, 230), (0x1b34, 7), (0x1b44, 9), (0x1b6b, 230), (0x1b6c, 220),
    (0x1b6d, 230), (0x1b6e, 230), (0x1b6f, 230), (0x1b70, 230), (0x1b71, 230), (0x1b72, 230),
    (0x1b73, 230), (0x1baa, 9), (0x1bab, 9), (0x1be6, 7), (0x1bf2, 9), (0x1bf3, 9), (0x1c37, 7),
    (0x1cd0, 230), (0x1cd1, 230), (0x1cd2, 230), (0x1cd4, 1), (0x1cd5, 220), (0x1cd6, 220),
    (0x1cd7, 220), (0x1cd8, 220), (0x1cd9, 220), (0x1cda, 230), (0x1cdb, 230), (0x1cdc, 220),
    (0x1cdd, 220), (0x1cde, 220), (0x1cdf, 220), (0x1ce0, 230), (0x1ce2, 1), (0x1ce3, 1),
    (0x1ce4, 1), (0x1ce5, 1), (0x1ce6, 1), (0x1ce7, 1), (0x1ce8, 1), (0x1ced, 220), (0x1cf4, 230),
    (0x1cf8, 230), (0x1cf9, 230), (0x1dc0, 230), (0x1dc1, 230), (0x1dc2, 220), (0x1dc3, 230),
    (0x1dc4, 230), (0x1dc5, 230), (0x1dc6, 230), (0x1dc7, 230), (0x1dc8, 230), (0x1dc9, 230),
    (0x1dca, 220), (0x1dcb, 230), (0x1dcc, 230), (0x1dcd, 234), (0x1dce, 214), (0x1dcf, 220),
    (0x1dd0, 202), (0x1dd1, 230), (0x1dd2, 230), (0x1dd3, 230), (0x1dd4, 230), (0x1dd5, 230),
    (0x1dd6, 230), (0x1dd7, 230), (0x1dd8, 230), (0x1dd9, 230), (0x1dda, 230), (0x1ddb, 230),
    (0x1ddc, 230), (0x1ddd, 230), (0x1dde, 230), (0x1ddf, 230), (0x1de0, 230), (0x1de1, 230),
    (0x1de2, 230), (0x1de3, 230), (0x1de4, 230), (0x1de5, 230), (0x1de6, 230), (0x1de7, 230),
    (0x1de8, 230), (0x1de9, 230), (0x1dea, 230), (0x1deb, 230), (0x1dec, 230), (0x1ded, 230),
    (0x1dee, 230), (0x1def, 230), (0x1df0, 230), (0x1df1, 230), (0x1df2, 230), (0x1df3, 230),
    (0x1df4, 230), (0x1df5, 230), (0x1df6, 232), (0x1df7, 228), (0x1df8, 228), (0x1df9, 220),
    (0x1dfa, 218), (0x1dfb, 230), (0x1dfc, 233), (0x1dfd, 220), (0x1dfe, 230), (0x1dff, 220),
    (0x20d0, 230), (0x20d1, 230), (0x20d2, 1), (0x20d3, 1), (0x20d4, 230), (0x20d5, 230),
    (0x20d6, 230), (0x20d7, 230), (0x20d8, 1), (0x20d9, 1), (0x20da, 1), (0x20db, 230),
    (0x20dc, 230), (0x20e1, 230), (0x20e5, 1), (0x20e6, 1), (0x20e7, 230), (0x20e8, 220),
    (0x20e9, 230), (0x20ea, 1), (0x20eb, 1), (0x20ec, 220), (0x20ed, 220), (0x20ee, 220),
    (0x20ef, 220), (0x20f0, 230), (0x2cef, 230), (0x2cf0, 230), (0x2cf1, 230), (0x2d7f, 9),
    (0x2de0, 230), (0x2de1, 230), (0x2de2, 230), (0x2de3, 230), (0x2de4, 230), (0x2de5, 230),
    (0x2de6, 230), (0x2de7, 230), (0x2de8, 230), (0x2de9, 230), (0x2dea, 230), (0x2deb, 230),
    (0x2dec, 230), (0x2ded, 230), (0x2dee, 230), (0x2def, 230), (0x2df0, 230), (0x2df1, 230),
    (0x2df2, 230), (0x2df3, 230), (0x2df4, 230), (0x2df5, 230), (0x2df6, 230), (0x2df7, 230),
    (0x2df8, 230), (0x2df9, 230), (0x2dfa, 230), (0x2dfb, 230), (0x2dfc, 230), (0x2dfd, 230),
    (0x2dfe, 230), (0x2dff, 230), (0x302a, 218), (0x302b, 228), (0x302c, 232), (0x302d, 222),
    (0x302e, 224), (0x302f, 224), (0x3099, 8), (0x309a, 8), (0xa66f, 230), (0xa674, 230),
    (0xa675, 230), (0xa676, 230), (0xa677, 230), (0xa678, 230), (0xa679, 230), (0xa67a, 230),
    (0xa67b, 230), (0xa67c, 230), (0xa67d, 230), (0xa69e, 230), (0xa69f, 230), (0xa6f0, 230),
    (0xa6f1, 230), (0xa806, 9), (0xa82c, 9), (0xa8c4, 9), (0xa8e0, 230), (0xa8e1, 230),
    (0xa8e2, 230), (0xa8e3, 230), (0xa8e4, 230), (0xa8e5, 230), (0xa8e6, 230), (0xa8e7, 230),
    (0xa8e8, 230), (0xa8e9, 230), (0xa8ea, 230), (0xa8eb, 230), (0xa8ec, 230), (0xa8ed, 230),
    (0xa8ee, 230), (0xa8ef, 230), (0xa8f0, 230), (0xa8f1, 230), (0xa92b, 220), (0xa92c, 220),
    (0xa92d, 220), (0xa953, 9), (0xa9b3, 7), (0xa9c0, 9), (0xaab0, 230), (0xaab2, 230),
    (0xaab3, 230), (0xaab4, 220), (0xaab7, 230), (0xaab8, 230), (0xaabe, 230), (0xaabf, 230),
    (0xaac1, 230), (0xaaf6, 9), (0xabed, 9), (0xfb1e, 26), (0xfe20, 230), (0xfe21, 230),
    (0xfe22, 230), (0xfe23, 230), (0xfe24, 230), (0xfe25, 230), (0xfe26, 230), (0xfe27, 220),
    (0xfe28, 220), (0xfe29, 220), (0xfe2a, 220), (0xfe2b, 220), (0xfe2c, 220), (0xfe2d, 220),
    (0xfe2e, 230), (0xfe2f, 230), (0x101fd, 220), (0x102e0, 220), (0x10376, 230), (0x10377, 230),
    (0x10378, 230), (0x10379, 230), (0x1037a, 230), (0x10a0d, 220), (0x10a0f, 230), (0x10a38, 230),
    (0x10a39, 1), (0x10a3a, 220), (0x10a3f, 9), (0x10ae5, 230), (0x10ae6, 220), (0x10d24, 230),
    (0x10d25, 230), (0x10d26, 230), (0x10d27, 230), (0x10eab, 230), (0x10eac, 230), (0x10f46, 220),
    (0x10f47, 220), (0x10f48, 230), (0x10f49, 230), (0x10f4a, 230), (0x10f4b, 220), (0x10f4c, 230),
    (0x10f4d, 220), (0x10f4e, 220), (0x10f4f, 220), (0x10f50, 220), (0x10f82, 230), (0x10f83, 220),
    (0x10f84, 230), (0x10f85, 220), (0x11046, 9), (0x11070, 9), (0x1107f, 9), (0x110b9, 9),
    (0x110ba, 7), (0x11100, 230), (0x11101, 230), (0x11102, 230), (0x11133, 9), (0x11134, 9),
    (0x11173, 7), (0x111c0, 9), (0x111ca, 7), (0x11235, 9), (0x11236, 7), (0x112e9, 7),
    (0x112ea, 9), (0x1133b, 7), (0x1133c, 7), (0x1134d, 9), (0x11366, 230), (0x11367, 230),
    (0x11368, 230), (0x11369, 230), (0x1136a, 230), (0x1136b, 230), (0x1136c, 230), (0x11370, 230),
    (0x11371, 230), (0x11372, 230), (0x11373, 230), (0x11374, 230), (0x11442, 9), (0x11446, 7),
    (0x1145e, 230), (0x114c2, 9), (0x114c3, 7), (0x115bf, 9), (0x115c0, 7), (0x1163f, 9),
    (0x116b6, 9), (0x116b7, 7), (0x1172b, 9), (0x11839, 9), (0x1183a, 7), (0x1193d, 9),
    (0x1193e, 9), (0x11943, 7), (0x119e0, 9), (0x11a34, 9), (0x11a47, 9), (0x11a99, 9),
    (0x11c3f, 9), (0x11d42, 7), (0x11d44, 9), (0x11d45, 9), (0x11d97, 9), (0x16af0, 1),
    (0x16af1, 1), (0x16af2, 1), (0x16af3, 1), (0x16af4, 1), (0x16b30, 230), (0x16b31, 230),
    (0x16b32, 230), (0x16b33, 230), (0x16b34, 230), (0x16b35, 230), (0x16b36, 230), (0x16ff0, 6),
    (0x16ff1, 6), (0x1bc9e, 1), (0x1d165, 216), (0x1d166, 216), (0x1d167, 1), (0x1d168, 1),
    (0x1d169, 1), (0x1d16d, 226), (0x1d16e, 216), (0x1d16f, 216), (0x1d170, 216), (0x1d171, 216),
    (0x1d172, 216), (0x1d17b, 220), (0x1d17c, 220), (0x1d17d, 220), (0x1d17e, 220), (0x1d17f, 220),
    (0x1d180, 220), (0x1d181, 220), (0x1d182, 220), (0x1d185, 230), (0x1d186, 230), (0x1d187, 230),
    (0x1d188, 230), (0x1d189, 230), (0x1d18a, 220), (0x1d18b, 220), (0x1d1aa, 230), (0x1d1ab, 230),
    (0x1d1ac, 230), (0x1d1ad, 230), (0x1d242, 230), (0x1d243, 230), (0x1d244, 230), (0x1e000, 230),
    (0x1e001, 230), (0x1e002, 230), (0x1e003, 230), (0x1e004, 230), (0x1e005, 230), (0x1e006, 230),
    (0x1e008, 230), (0x1e009, 230), (0x1e00a, 230), (0x1e00b, 230), (0x1e00c, 230), (0x1e00d, 230),
    (0x1e00e, 230), (0x1e00f, 230), (0x1e010, 230), (0x1e011, 230), (0x1e012, 230), (0x1e013, 230),
    (0x1e014, 230), (0x1e015, 230), (0x1e016, 230), (0x1e017, 230), (0x1e018, 230), (0x1e01b, 230),
    (0x1e01c, 230), (0x1e01d, 230), (0x1e01e, 230), (0x1e01f, 230), (0x1e020, 230), (0x1e021, 230),
    (0x1e023, 230), (0x1e024, 230), (0x1e026, 230), (0x1e027, 230), (0x1e028, 230), (0x1e029, 230),
    (0x1e02a, 230), (0x1e130, 230), (0x1e131, 230), (0x1e132, 230), (0x1e133, 230), (0x1e134, 230),
    (0x1e135, 230), (0x1e136, 230), (0x1e2ae, 230), (0x1e2ec, 230), (0x1e2ed, 230), (0x1e2ee, 230),
    (0x1e2ef, 230), (0x1e8d0, 220), (0x1e8d1, 220), (0x1e8d2, 220), (0x1e8d3, 220), (0x1e8d4, 220),
    (0x1e8d5, 220), (0x1e8d6, 220), (0x1e944, 230), (0x1e945, 230), (0x1e946, 230), (0x1e947, 230),
    (0x1e948, 230), (0x1e949, 230), (0x1e94a, 7),
];

/// The rows of [`CCC`].
pub closed spec fn table() -> Seq<(u32, u32)> {
    CCC@
}

/// The rows of [`CCC`].
pub fn rows() -> (r: &'static [(u32, u32)])
    ensures
        r@ == table(),
{
    &CCC
}

/// What the table holds.
pub proof fn table_holds_the_rows()
    ensures
        table() == CCC@,
{
}

/// The rows are in order.
pub proof fn lemma_order()
    ensures
        order::ascending(order::pair_keys(table())),
{
    let t = CCC@;
    order::lemma_pairs_start(t);
    order::lemma_pairs_block(t, 0, 0);
    order::lemma_pairs_block(t, 16, 16);
    order::lemma_pairs_block(t, 32, 32);
    order::lemma_pairs_block(t, 48, 48);
    order::lemma_pairs_block(t, 64, 64);
    order::lemma_pairs_block(t, 80, 80);
    order::lemma_pairs_block(t, 96, 96);
    order::lemma_pairs_block(t, 112, 112);
    order::lemma_pairs_block(t, 128, 128);
    order::lemma_pairs_block(t, 144, 144);
    order::lemma_pairs_block(t, 160, 160);
    order::lemma_pairs_block(t, 176, 176);
    order::lemma_pairs_block(t, 192, 192);
    order::lemma_pairs_block(t, 208, 208);
    order::lemma_pairs_block(t, 224, 224);
    order::lemma_pairs_block(t, 240, 240);
    order::lemma_pairs_block(t, 256, 256);
    order::lemma_pairs_block(t, 272, 272);
    order::lemma_pairs_block(t, 288, 288);
    order::lemma_pairs_block(t, 304, 304);
    order::lemma_pairs_block(t, 320, 320);
    order::lemma_pairs_block(t, 336, 336);
    order::lemma_pairs_block(t, 352, 352);
    order::lemma_pairs_block(t, 368, 368);
    order::lemma_pairs_block(t, 384, 384);
    order::lemma_pairs_block(t, 400, 400);
    order::lemma_pairs_block(t, 416, 416);
    order::lemma_pairs_block(t, 432, 432);
    order::lemma_pairs_block(t, 448, 448);
    order::lemma_pairs_block(t, 464, 464);
    order::lemma_pairs_block(t, 480, 480);
    order::lemma_pairs_block(t, 496, 496);
    order::lemma_pairs_block(t, 512, 512);
    order::lemma_pairs_block(t, 528, 528);
    order::lemma_pairs_block(t, 544, 544);
    order::lemma_pairs_block(t, 560, 560);
    order::lemma_pairs_block(t, 576, 576);
    order::lemma_pairs_block(t, 592, 592);
    order::lemma_pairs_block(t, 608, 608);
    order::lemma_pairs_block(t, 624, 624);
    order::lemma_pairs_block(t, 640, 640);
    order::lemma_pairs_block(t, 656, 656);
    order::lemma_pairs_block(t, 672, 672);
    order::lemma_pairs_block(t, 688, 688);
    order::lemma_pairs_block(t, 704, 704);
    order::lemma_pairs_block(t, 720, 720);
    order::lemma_pairs_block(t, 736, 736);
    order::lemma_pairs_block(t, 752, 752);
    order::lemma_pairs_block(t, 768, 768);
    order::lemma_pairs_block(t, 784, 784);
    order::lemma_pairs_block(t, 800, 800);
    order::lemma_pairs_block(t, 816, 816);
    order::lemma_pairs_block(t, 832, 832);
    order::lemma_pairs_block(t, 848, 848);
    order::lemma_pairs_block(t, 864, 864);
    order::lemma_pairs_block(t, 880, 880);
    order::lemma_pairs_block(t, 896, 896);
    order::lemma_pairs_ascend(t);
}

/// The rows round ASCII and round the Hangul jamo.
pub proof fn lemma_landmarks()
    ensures
        table().len() > 405,
        table()[0].0 == 0x300,
        table()[404].0 == 0x108d,
        table()[405].0 == 0x135d,
{
}

/// The classes of the tone marks, and of what they decompose to; and the rows round the Hangul
/// syllables.
pub proof fn lemma_tone_marks()
    ensures
        table().len() > 690,
        table()[0] == (0x300u32, 230u32),
        table()[1] == (0x301u32, 230u32),
        table()[8] == (0x308u32, 230u32),
        table()[19] == (0x313u32, 230u32),
        table()[64] == (0x340u32, 230u32),
        table()[65] == (0x341u32, 230u32),
        table()[66] == (0x342u32, 230u32),
        table()[67] == (0x343u32, 230u32),
        table()[68] == (0x344u32, 230u32),
        table()[689].0 < 0xac00,
        table()[690].0 > 0xd7a3,
{
}

} // verus!
