//! Canonical compositions.
use super::order;
use vstd::prelude::*;

verus! {

/// The pairs that canonically compose, as `first * 2^21 + second`, and what they compose to.
/// A composition exclusion is not among them.
pub const COMPOSE: [(u64, u32); 941] = [
    (0x7800338, 0x226e), (0x7a00338, 0x2260), (0x7c00338, 0x226f), (0x8200300, 0xc0),
    (0x8200301, 0xc1), (0x8200302, 0xc2), (0x8200303, 0xc3), (0x8200304, 0x100), (0x8200306, 0x102),
    (0x8200307, 0x226), (0x8200308, 0xc4), (0x8200309, 0x1ea2), (0x820030a, 0xc5),
    (0x820030c, 0x1cd), (0x820030f, 0x200), (0x8200311, 0x202), (0x8200323, 0x1ea0),
    (0x8200325, 0x1e00), (0x8200328, 0x104), (0x8400307, 0x1e02), (0x8400323, 0x1e04),
    (0x8400331, 0x1e06), (0x8600301, 0x106), (0x8600302, 0x108), (0x8600307, 0x10a),
    (0x860030c, 0x10c), (0x8600327, 0xc7), (0x8800307, 0x1e0a), (0x880030c, 0x10e),
    (0x8800323, 0x1e0c), (0x8800327, 0x1e10), (0x880032d, 0x1e12), (0x8800331, 0x1e0e),
    (0x8a00300, 0xc8), (0x8a00301, 0xc9), (0x8a00302, 0xca), (0x8a00303, 0x1ebc),
    (0x8a00304, 0x112), (0x8a00306, 0x114), (0x8a00307, 0x116), (0x8a00308, 0xcb),
    (0x8a00309, 0x1eba), (0x8a0030c, 0x11a), (0x8a0030f, 0x204), (0x8a00311, 0x206),
    (0x8a00323, 0x1eb8), (0x8a00327, 0x228), (0x8a00328, 0x118), (0x8a0032d, 0x1e18),
    (0x8a00330, 0x1e1a), (0x8c00307, 0x1e1e), (0x8e00301, 0x1f4), (0x8e00302, 0x11c),
    (0x8e00304, 0x1e20), (0x8e00306, 0x11e), (0x8e00307, 0x120), (0x8e0030c, 0x1e6),
    (0x8e00327, 0x122), (0x9000302, 0x124), (0x9000307, 0x1e22), (0x9000308, 0x1e26),
    (0x900030c, 0x21e), (0x9000323, 0x1e24), (0x9000327, 0x1e28), (0x900032e, 0x1e2a),
    (0x9200300, 0xcc), (0x9200301, 0xcd), (0x9200302, 0xce), (0x9200303, 0x128), (0x9200304, 0x12a),
    (0x9200306, 0x12c), (0x9200307, 0x130), (0x9200308, 0xcf), (0x9200309, 0x1ec8),
    (0x920030c, 0x1cf), (0x920030f, 0x208), (0x9200311, 0x20a), (0x9200323, 0x1eca),
    (0x9200328, 0x12e), (0x9200330, 0x1e2c), (0x9400302, 0x134), (0x9600301, 0x1e30),
    (0x960030c, 0x1e8), (0x9600323, 0x1e32), (0x9600327, 0x136), (0x9600331, 0x1e34),
    (0x9800301, 0x139), (0x980030c, 0x13d), (0x9800323, 0x1e36), (0x9800327, 0x13b),
    (0x980032d, 0x1e3c), (0x9800331, 0x1e3a), (0x9a00301, 0x1e3e), (0x9a00307, 0x1e40),
    (0x9a00323, 0x1e42), (0x9c00300, 0x1f8), (0x9c00301, 0x143), (0x9c00303, 0xd1),
    (0x9c00307, 0x1e44), (0x9c0030c, 0x147), (0x9c00323, 0x1e46), (0x9c00327, 0x145),
    (0x9c0032d, 0x1e4a), (0x9c00331, 0x1e48), (0x9e00300, 0xd2), (0x9e00301, 0xd3),
    (0x9e00302, 0xd4), (0x9e00303, 0xd5), (0x9e00304, 0x14c), (0x9e00306, 0x14e),
    (0x9e00307, 0x22e), (0x9e00308, 0xd6), (0x9e00309, 0x1ece), (0x9e0030b, 0x150),
    (0x9e0030c, 0x1d1), (0x9e0030f, 0x20c), (0x9e00311, 0x20e), (0x9e0031b, 0x1a0),
    (0x9e00323, 0x1ecc), (0x9e00328, 0x1ea), (0xa000301, 0x1e54), (0xa000307, 0x1e56),
    (0xa400301, 0x154), (0xa400307, 0x1e58), (0xa40030c, 0x158), (0xa40030f, 0x210),
    (0xa400311, 0x212), (0xa400323, 0x1e5a), (0xa400327, 0x156), (0xa400331, 0x1e5e),
    (0xa600301, 0x15a), (0xa600302, 0x15c), (0xa600307, 0x1e60), (0xa60030c, 0x160),
    (0xa600323, 0x1e62), (0xa600326, 0x218), (0xa600327, 0x15e), (0xa800307, 0x1e6a),
    (0xa80030c, 0x164), (0xa800323, 0x1e6c), (0xa800326, 0x21a), (0xa800327, 0x162),
    (0xa80032d, 0x1e70), (0xa800331, 0x1e6e), (0xaa00300, 0xd9), (0xaa00301, 0xda),
    (0xaa00302, 0xdb), (0xaa00303, 0x168), (0xaa00304, 0x16a), (0xaa00306, 0x16c),
    (0xaa00308, 0xdc), (0xaa00309, 0x1ee6), (0xaa0030a, 0x16e), (0xaa0030b, 0x170),
    (0xaa0030c, 0x1d3), (0xaa0030f, 0x214), (0xaa00311, 0x216), (0xaa0031b, 0x1af),
    (0xaa00323, 0x1ee4), (0xaa00324, 0x1e72), (0xaa00328, 0x172), (0xaa0032d, 0x1e76),
    (0xaa00330, 0x1e74), (0xac00303, 0x1e7c), (0xac00323, 0x1e7e), (0xae00300, 0x1e80),
    (0xae00301, 0x1e82), (0xae00302, 0x174), (0xae00307, 0x1e86), (0xae00308, 0x1e84),
    (0xae00323, 0x1e88), (0xb000307, 0x1e8a), (0xb000308, 0x1e8c), (0xb200300, 0x1ef2),
    (0xb200301, 0xdd), (0xb200302, 0x176), (0xb200303, 0x1ef8), (0xb200304, 0x232),
    (0xb200307, 0x1e8e), (0xb200308, 0x178), (0xb200309, 0x1ef6), (0xb200323, 0x1ef4),
    (0xb400301, 0x179), (0xb400302, 0x1e90), (0xb400307, 0x17b), (0xb40030c, 0x17d),
    (0xb400323, 0x1e92), (0xb400331, 0x1e94), (0xc200300, 0xe0), (0xc200301, 0xe1),
    (0xc200302, 0xe2), (0xc200303, 0xe3), (0xc200304, 0x101), (0xc200306, 0x103),
    (0xc200307, 0x227), (0xc200308, 0xe4), (0xc200309, 0x1ea3), (0xc20030a, 0xe5),
    (0xc20030c, 0x1ce), (0xc20030f, 0x201), (0xc200311, 0x203), (0xc200323, 0x1ea1),
    (0xc200325, 0x1e01), (0xc200328, 0x105), (0xc400307, 0x1e03), (0xc400323, 0x1e05),
    (0xc400331, 0x1e07), (0xc600301, 0x107), (0xc600302, 0x109), (0xc600307, 0x10b),
    (0xc60030c, 0x10d), (0xc600327, 0xe7), (0xc800307, 0x1e0b), (0xc80030c, 0x10f),
    (0xc800323, 0x1e0d), (0xc800327, 0x1e11), (0xc80032d, 0x1e13), (0xc800331, 0x1e0f),
    (0xca00300, 0xe8), (0xca00301, 0xe9), (0xca00302, 0xea), (0xca00303, 0x1ebd),
    (0xca00304, 0x113), (0xca00306, 0x115), (0xca00307, 0x117), (0xca00308, 0xeb),
    (0xca00309, 0x1ebb), (0xca0030c, 0x11b), (0xca0030f, 0x205), (0xca00311, 0x207),
    (0xca00323, 0x1eb9), (0xca00327, 0x229), (0xca00328, 0x119), (0xca0032d, 0x1e19),
    (0xca00330, 0x1e1b), (0xcc00307, 0x1e1f), (0xce00301, 0x1f5), (0xce00302, 0x11d),
    (0xce00304, 0x1e21), (0xce00306, 0x11f), (0xce00307, 0x121), (0xce0030c, 0x1e7),
    (0xce00327, 0x123), (0xd000302, 0x125), (0xd000307, 0x1e23), (0xd000308, 0x1e27),
    (0xd00030c, 0x21f), (0xd000323, 0x1e25), (0xd000327, 0x1e29), (0xd00032e, 0x1e2b),
    (0xd000331, 0x1e96), (0xd200300, 0xec), (0xd200301, 0xed), (0xd200302, 0xee),
    (0xd200303, 0x129), (0xd200304, 0x12b), (0xd200306, 0x12d), (0xd200308, 0xef),
    (0xd200309, 0x1ec9), (0xd20030c, 0x1d0), (0xd20030f, 0x209), (0xd200311, 0x20b),
    (0xd200323, 0x1ecb), (0xd200328, 0x12f), (0xd200330, 0x1e2d), (0xd400302, 0x135),
    (0xd40030c, 0x1f0), (0xd600301, 0x1e31), (0xd60030c, 0x1e9), (0xd600323, 0x1e33),
    (0xd600327, 0x137), (0xd600331, 0x1e35), (0xd800301, 0x13a), (0xd80030c, 0x13e),
    (0xd800323, 0x1e37), (0xd800327, 0x13c), (0xd80032d, 0x1e3d), (0xd800331, 0x1e3b),
    (0xda00301, 0x1e3f), (0xda00307, 0x1e41), (0xda00323, 0x1e43), (0xdc00300, 0x1f9),
    (0xdc00301, 0x144), (0xdc00303, 0xf1), (0xdc00307, 0x1e45), (0xdc0030c, 0x148),
    (0xdc00323, 0x1e47), (0xdc00327, 0x146), (0xdc0032d, 0x1e4b), (0xdc00331, 0x1e49),
    (0xde00300, 0xf2), (0xde00301, 0xf3), (0xde00302, 0xf4), (0xde00303, 0xf5), (0xde00304, 0x14d),
    (0xde00306, 0x14f), (0xde00307, 0x22f), (0xde00308, 0xf6), (0xde00309, 0x1ecf),
    (0xde0030b, 0x151), (0xde0030c, 0x1d2), (0xde0030f, 0x20d), (0xde00311, 0x20f),
    (0xde0031b, 0x1a1), (0xde00323, 0x1ecd), (0xde00328, 0x1eb), (0xe000301, 0x1e55),
    (0xe000307, 0x1e57), (0xe400301, 0x155), (0xe400307, 0x1e59), (0xe40030c, 0x159),
    (0xe40030f, 0x211), (0xe400311, 0x213), (0xe400323, 0x1e5b), (0xe400327, 0x157),
    (0xe400331, 0x1e5f), (0xe600301, 0x15b), (0xe600302, 0x15d), (0xe600307, 0x1e61),
    (0xe60030c, 0x161), (0xe600323, 0x1e63), (0xe600326, 0x219), (0xe600327, 0x15f),
    (0xe800307, 0x1e6b), (0xe800308, 0x1e97), (0xe80030c, 0x165), (0xe800323, 0x1e6d),
    (0xe800326, 0x21b), (0xe800327, 0x163), (0xe80032d, 0x1e71), (0xe800331, 0x1e6f),
    (0xea00300, 0xf9), (0xea00301, 0xfa), (0xea00302, 0xfb), (0xea00303, 0x169), (0xea00304, 0x16b),
    (0xea00306, 0x16d), (0xea00308, 0xfc), (0xea00309, 0x1ee7), (0xea0030a, 0x16f),
    (0xea0030b, 0x171), (0xea0030c, 0x1d4), (0xea0030f, 0x215), (0xea00311, 0x217),
    (0xea0031b, 0x1b0), (0xea00323, 0x1ee5), (0xea00324, 0x1e73), (0xea00328, 0x173),
    (0xea0032d, 0x1e77), (0xea00330, 0x1e75), (0xec00303, 0x1e7d), (0xec00323, 0x1e7f),
    (0xee00300, 0x1e81), (0xee00301, 0x1e83), (0xee00302, 0x175), (0xee00307, 0x1e87),
    (0xee00308, 0x1e85), (0xee0030a, 0x1e98), (0xee00323, 0x1e89), (0xf000307, 0x1e8b),
    (0xf000308, 0x1e8d), (0xf200300, 0x1ef3), (0xf200301, 0xfd), (0xf200302, 0x177),
    (0xf200303, 0x1ef9), (0xf200304, 0x233), (0xf200307, 0x1e8f), (0xf200308, 0xff),
    (0xf200309, 0x1ef7), (0xf20030a, 0x1e99), (0xf200323, 0x1ef5), (0xf400301, 0x17a),
    (0xf400302, 0x1e91), (0xf400307, 0x17c), (0xf40030c, 0x17e), (0xf400323, 0x1e93),
    (0xf400331, 0x1e95), (0x15000300, 0x1fed), (0x15000301, 0x385), (0x15000342, 0x1fc1),
    (0x18400300, 0x1ea6), (0x18400301, 0x1ea4), (0x18400303, 0x1eaa), (0x18400309, 0x1ea8),
    (0x18800304, 0x1de), (0x18a00301, 0x1fa), (0x18c00301, 0x1fc), (0x18c00304, 0x1e2),
    (0x18e00301, 0x1e08), (0x19400300, 0x1ec0), (0x19400301, 0x1ebe), (0x19400303, 0x1ec4),
    (0x19400309, 0x1ec2), (0x19e00301, 0x1e2e), (0x1a800300, 0x1ed2), (0x1a800301, 0x1ed0),
    (0x1a800303, 0x1ed6), (0x1a800309, 0x1ed4), (0x1aa00301, 0x1e4c), (0x1aa00304, 0x22c),
    (0x1aa00308, 0x1e4e), (0x1ac00304, 0x22a), (0x1b000301, 0x1fe), (0x1b800300, 0x1db),
    (0x1b800301, 0x1d7), (0x1b800304, 0x1d5), (0x1b80030c, 0x1d9), (0x1c400300, 0x1ea7),
    (0x1c400301, 0x1ea5), (0x1c400303, 0x1eab), (0x1c400309, 0x1ea9), (0x1c800304, 0x1df),
    (0x1ca00301, 0x1fb), (0x1cc00301, 0x1fd), (0x1cc00304, 0x1e3), (0x1ce00301, 0x1e09),
    (0x1d400300, 0x1ec1), (0x1d400301, 0x1ebf), (0x1d400303, 0x1ec5), (0x1d400309, 0x1ec3),
    (0x1de00301, 0x1e2f), (0x1e800300, 0x1ed3), (0x1e800301, 0x1ed1), (0x1e800303, 0x1ed7),
    (0x1e800309, 0x1ed5), (0x1ea00301, 0x1e4d), (0x1ea00304, 0x22d), (0x1ea00308, 0x1e4f),
    (0x1ec00304, 0x22b), (0x1f000301, 0x1ff), (0x1f800300, 0x1dc), (0x1f800301, 0x1d8),
    (0x1f800304, 0x1d6), (0x1f80030c, 0x1da), (0x20400300, 0x1eb0), (0x20400301, 0x1eae),
    (0x20400303, 0x1eb4), (0x20400309, 0x1eb2), (0x20600300, 0x1eb1), (0x20600301, 0x1eaf),
    (0x20600303, 0x1eb5), (0x20600309, 0x1eb3), (0x22400300, 0x1e14), (0x22400301, 0x1e16),
    (0x22600300, 0x1e15), (0x22600301, 0x1e17), (0x29800300, 0x1e50), (0x29800301, 0x1e52),
    (0x29a00300, 0x1e51), (0x29a00301, 0x1e53), (0x2b400307, 0x1e64), (0x2b600307, 0x1e65),
    (0x2c000307, 0x1e66), (0x2c200307, 0x1e67), (0x2d000301, 0x1e78), (0x2d200301, 0x1e79),
    (0x2d400308, 0x1e7a), (0x2d600308, 0x1e7b), (0x2fe00307, 0x1e9b), (0x34000300, 0x1edc),
    (0x34000301, 0x1eda), (0x34000303, 0x1ee0), (0x34000309, 0x1ede), (0x34000323, 0x1ee2),
    (0x34200300, 0x1edd), (0x34200301, 0x1edb), (0x34200303, 0x1ee1), (0x34200309, 0x1edf),
    (0x34200323, 0x1ee3), (0x35e00300, 0x1eea), (0x35e00301, 0x1ee8), (0x35e00303, 0x1eee),
    (0x35e00309, 0x1eec), (0x35e00323, 0x1ef0), (0x36000300, 0x1eeb), (0x36000301, 0x1ee9),
    (0x36000303, 0x1eef), (0x36000309, 0x1eed), (0x36000323, 0x1ef1), (0x36e0030c, 0x1ee),
    (0x3d400304, 0x1ec), (0x3d600304, 0x1ed), (0x44c00304, 0x1e0), (0x44e00304, 0x1e1),
    (0x45000306, 0x1e1c), (0x45200306, 0x1e1d), (0x45c00304, 0x230), (0x45e00304, 0x231),
    (0x5240030c, 0x1ef), (0x72200300, 0x1fba), (0x72200301, 0x386), (0x72200304, 0x1fb9),
    (0x72200306, 0x1fb8), (0x72200313, 0x1f08), (0x72200314, 0x1f09), (0x72200345, 0x1fbc),
    (0x72a00300, 0x1fc8), (0x72a00301, 0x388), (0x72a00313, 0x1f18), (0x72a00314, 0x1f19),
    (0x72e00300, 0x1fca), (0x72e00301, 0x389), (0x72e00313, 0x1f28), (0x72e00314, 0x1f29),
    (0x72e00345, 0x1fcc), (0x73200300, 0x1fda), (0x73200301, 0x38a), (0x73200304, 0x1fd9),
    (0x73200306, 0x1fd8), (0x73200308, 0x3aa), (0x73200313, 0x1f38), (0x73200314, 0x1f39),
    (0x73e00300, 0x1ff8), (0x73e00301, 0x38c), (0x73e00313, 0x1f48), (0x73e00314, 0x1f49),
    (0x74200314, 0x1fec), (0x74a00300, 0x1fea), (0x74a00301, 0x38e), (0x74a00304, 0x1fe9),
    (0x74a00306, 0x1fe8), (0x74a00308, 0x3ab), (0x74a00314, 0x1f59), (0x75200300, 0x1ffa),
    (0x75200301, 0x38f), (0x75200313, 0x1f68), (0x75200314, 0x1f69), (0x75200345, 0x1ffc),
    (0x75800345, 0x1fb4), (0x75c00345, 0x1fc4), (0x76200300, 0x1f70), (0x76200301, 0x3ac),
    (0x76200304, 0x1fb1), (0x76200306, 0x1fb0), (0x76200313, 0x1f00), (0x76200314, 0x1f01),
    (0x76200342, 0x1fb6), (0x76200345, 0x1fb3), (0x76a00300, 0x1f72), (0x76a00301, 0x3ad),
    (0x76a00313, 0x1f10), (0x76a00314, 0x1f11), (0x76e00300, 0x1f74), (0x76e00301, 0x3ae),
    (0x76e00313, 0x1f20), (0x76e00314, 0x1f21), (0x76e00342, 0x1fc6), (0x76e00345, 0x1fc3),
    (0x77200300, 0x1f76), (0x77200301, 0x3af), (0x77200304, 0x1fd1), (0x77200306, 0x1fd0),
    (0x77200308, 0x3ca), (0x77200313, 0x1f30), (0x77200314, 0x1f31), (0x77200342, 0x1fd6),
    (0x77e00300, 0x1f78), (0x77e00301, 0x3cc), (0x77e00313, 0x1f40), (0x77e00314, 0x1f41),
    (0x78200313, 0x1fe4), (0x78200314, 0x1fe5), (0x78a00300, 0x1f7a), (0x78a00301, 0x3cd),
    (0x78a00304, 0x1fe1), (0x78a00306, 0x1fe0), (0x78a00308, 0x3cb), (0x78a00313, 0x1f50),
    (0x78a00314, 0x1f51), (0x78a00342, 0x1fe6), (0x79200300, 0x1f7c), (0x79200301, 0x3ce),
    (0x79200313, 0x1f60), (0x79200314, 0x1f61), (0x79200342, 0x1ff6), (0x79200345, 0x1ff3),
    (0x79400300, 0x1fd2), (0x79400301, 0x390), (0x79400342, 0x1fd7), (0x79600300, 0x1fe2),
    (0x79600301, 0x3b0), (0x79600342, 0x1fe7), (0x79c00345, 0x1ff4), (0x7a400301, 0x3d3),
    (0x7a400308, 0x3d4), (0x80c00308, 0x407), (0x82000306, 0x4d0), (0x82000308, 0x4d2),
    (0x82600301, 0x403), (0x82a00300, 0x400), (0x82a00306, 0x4d6), (0x82a00308, 0x401),
    (0x82c00306, 0x4c1), (0x82c00308, 0x4dc), (0x82e00308, 0x4de), (0x83000300, 0x40d),
    (0x83000304, 0x4e2), (0x83000306, 0x419), (0x83000308, 0x4e4), (0x83400301, 0x40c),
    (0x83c00308, 0x4e6), (0x84600304, 0x4ee), (0x84600306, 0x40e), (0x84600308, 0x4f0),
    (0x8460030b, 0x4f2), (0x84e00308, 0x4f4), (0x85600308, 0x4f8), (0x85a00308, 0x4ec),
    (0x86000306, 0x4d1), (0x86000308, 0x4d3), (0x86600301, 0x453), (0x86a00300, 0x450),
    (0x86a00306, 0x4d7), (0x86a00308, 0x451), (0x86c00306, 0x4c2), (0x86c00308, 0x4dd),
    (0x86e00308, 0x4df), (0x87000300, 0x45d), (0x87000304, 0x4e3), (0x87000306, 0x439),
    (0x87000308, 0x4e5), (0x87400301, 0x45c), (0x87c00308, 0x4e7), (0x88600304, 0x4ef),
    (0x88600306, 0x45e), (0x88600308, 0x4f1), (0x8860030b, 0x4f3), (0x88e00308, 0x4f5),
    (0x89600308, 0x4f9), (0x89a00308, 0x4ed), (0x8ac00308, 0x457), (0x8e80030f, 0x476),
    (0x8ea0030f, 0x477), (0x9b000308, 0x4da), (0x9b200308, 0x4db), (0x9d000308, 0x4ea),
    (0x9d200308, 0x4eb), (0xc4e00653, 0x622), (0xc4e00654, 0x623), (0xc4e00655, 0x625),
    (0xc9000654, 0x624), (0xc9400654, 0x626), (0xd8200654, 0x6c2), (0xda400654, 0x6d3),
    (0xdaa00654, 0x6c0), (0x12500093c, 0x929), (0x12600093c, 0x931), (0x12660093c, 0x934),
    (0x138e009be, 0x9cb), (0x138e009d7, 0x9cc), (0x168e00b3e, 0xb4b), (0x168e00b56, 0xb48),
    (0x168e00b57, 0xb4c), (0x172400bd7, 0xb94), (0x178c00bbe, 0xbca), (0x178c00bd7, 0xbcc),
    (0x178e00bbe, 0xbcb), (0x188c00c56, 0xc48), (0x197e00cd5, 0xcc0), (0x198c00cc2, 0xcca),
    (0x198c00cd5, 0xcc7), (0x198c00cd6, 0xcc8), (0x199400cd5, 0xccb), (0x1a8c00d3e, 0xd4a),
    (0x1a8c00d57, 0xd4c), (0x1a8e00d3e, 0xd4b), (0x1bb200dca, 0xdda), (0x1bb200dcf, 0xddc),
    (0x1bb200ddf, 0xdde), (0x1bb800dca, 0xddd), (0x204a0102e, 0x1026), (0x360a01b35, 0x1b06),
    (0x360e01b35, 0x1b08), (0x361201b35, 0x1b0a), (0x361601b35, 0x1b0c), (0x361a01b35, 0x1b0e),
    (0x362201b35, 0x1b12), (0x367401b35, 0x1b3b), (0x367801b35, 0x1b3d), (0x367c01b35, 0x1b40),
    (0x367e01b35, 0x1b41), (0x368401b35, 0x1b43), (0x3c6c00304, 0x1e38), (0x3c6e00304, 0x1e39),
    (0x3cb400304, 0x1e5c), (0x3cb600304, 0x1e5d), (0x3cc400307, 0x1e68), (0x3cc600307, 0x1e69),
    (0x3d4000302, 0x1eac), (0x3d4000306, 0x1eb6), (0x3d4200302, 0x1ead), (0x3d4200306, 0x1eb7),
    (0x3d7000302, 0x1ec6), (0x3d7200302, 0x1ec7), (0x3d9800302, 0x1ed8), (0x3d9a00302, 0x1ed9),
    (0x3e0000300, 0x1f02), (0x3e0000301, 0x1f04), (0x3e0000342, 0x1f06), (0x3e0000345, 0x1f80),
    (0x3e0200300, 0x1f03), (0x3e0200301, 0x1f05), (0x3e0200342, 0x1f07), (0x3e0200345, 0x1f81),
    (0x3e0400345, 0x1f82), (0x3e0600345, 0x1f83), (0x3e0800345, 0x1f84), (0x3e0a00345, 0x1f85),
    (0x3e0c00345, 0x1f86), (0x3e0e00345, 0x1f87), (0x3e1000300, 0x1f0a), (0x3e1000301, 0x1f0c),
    (0x3e1000342, 0x1f0e), (0x3e1000345, 0x1f88), (0x3e1200300, 0x1f0b), (0x3e1200301, 0x1f0d),
    (0x3e1200342, 0x1f0f), (0x3e1200345, 0x1f89), (0x3e1400345, 0x1f8a), (0x3e1600345, 0x1f8b),
    (0x3e1800345, 0x1f8c), (0x3e1a00345, 0x1f8d), (0x3e1c00345, 0x1f8e), (0x3e1e00345, 0x1f8f),
    (0x3e2000300, 0x1f12), (0x3e2000301, 0x1f14), (0x3e2200300, 0x1f13), (0x3e2200301, 0x1f15),
    (0x3e3000300, 0x1f1a), (0x3e3000301, 0x1f1c), (0x3e3200300, 0x1f1b), (0x3e3200301, 0x1f1d),
    (0x3e4000300, 0x1f22), (0x3e4000301, 0x1f24), (0x3e4000342, 0x1f26), (0x3e4000345, 0x1f90),
    (0x3e4200300, 0x1f23), (0x3e4200301, 0x1f25), (0x3e4200342, 0x1f27), (0x3e4200345, 0x1f91),
    (0x3e4400345, 0x1f92), (0x3e4600345, 0x1f93), (0x3e4800345, 0x1f94), (0x3e4a00345, 0x1f95),
    (0x3e4c00345, 0x1f96), (0x3e4e00345, 0x1f97), (0x3e5000300, 0x1f2a), (0x3e5000301, 0x1f2c),
    (0x3e5000342, 0x1f2e), (0x3e5000345, 0x1f98), (0x3e5200300, 0x1f2b), (0x3e5200301, 0x1f2d),
    (0x3e5200342, 0x1f2f), (0x3e5200345, 0x1f99), (0x3e5400345, 0x1f9a), (0x3e5600345, 0x1f9b),
    (0x3e5800345, 0x1f9c), (0x3e5a00345, 0x1f9d), (0x3e5c00345, 0x1f9e), (0x3e5e00345, 0x1f9f),
    (0x3e6000300, 0x1f32), (0x3e6000301, 0x1f34), (0x3e6000342, 0x1f36), (0x3e6200300, 0x1f33),
    (0x3e6200301, 0x1f35), (0x3e6200342, 0x1f37), (0x3e7000300, 0x1f3a), (0x3e7000301, 0x1f3c),
    (0x3e7000342, 0x1f3e), (0x3e7200300, 0x1f3b), (0x3e7200301, 0x1f3d), (0x3e7200342, 0x1f3f),
    (0x3e8000300, 0x1f42), (0x3e8000301, 0x1f44), (0x3e8200300, 0x1f43), (0x3e8200301, 0x1f45),
    (0x3e9000300, 0x1f4a), (0x3e9000301, 0x1f4c), (0x3e9200300, 0x1f4b), (0x3e9200301, 0x1f4d),
    (0x3ea000300, 0x1f52), (0x3ea000301, 0x1f54), (0x3ea000342, 0x1f56), (0x3ea200300, 0x1f53),
    (0x3ea200301, 0x1f55), (0x3ea200342, 0x1f57), (0x3eb200300, 0x1f5b), (0x3eb200301, 0x1f5d),
    (0x3eb200342, 0x1f5f), (0x3ec000300, 0x1f62), (0x3ec000301, 0x1f64), (0x3ec000342, 0x1f66),
    (0x3ec000345, 0x1fa0), (0x3ec200300, 0x1f63), (0x3ec200301, 0x1f65), (0x3ec200342, 0x1f67),
    (0x3ec200345, 0x1fa1), (0x3ec400345, 0x1fa2), (0x3ec600345, 0x1fa3), (0x3ec800345, 0x1fa4),
    (0x3eca00345, 0x1fa5), (0x3ecc00345, 0x1fa6), (0x3ece00345, 0x1fa7), (0x3ed000300, 0x1f6a),
    (0x3ed000301, 0x1f6c), (0x3ed000342, 0x1f6e), (0x3ed000345, 0x1fa8), (0x3ed200300, 0x1f6b),
    (0x3ed200301, 0x1f6d), (0x3ed200342, 0x1f6f), (0x3ed200345, 0x1fa9), (0x3ed400345, 0x1faa),
    (0x3ed600345, 0x1fab), (0x3ed800345, 0x1fac), (0x3eda00345, 0x1fad), (0x3edc00345, 0x1fae),
    (0x3ede00345, 0x1faf), (0x3ee000345, 0x1fb2), (0x3ee800345, 0x1fc2), (0x3ef800345, 0x1ff2),
    (0x3f6c00345, 0x1fb7), (0x3f7e00300, 0x1fcd), (0x3f7e00301, 0x1fce), (0x3f7e00342, 0x1fcf),
    (0x3f8c00345, 0x1fc7), (0x3fec00345, 0x1ff7), (0x3ffc00300, 0x1fdd), (0x3ffc00301, 0x1fde),
    (0x3ffc00342, 0x1fdf), (0x432000338, 0x219a), (0x432400338, 0x219b), (0x432800338, 0x21ae),
    (0x43a000338, 0x21cd), (0x43a400338, 0x21cf), (0x43a800338, 0x21ce), (0x440600338, 0x2204),
    (0x441000338, 0x2209), (0x441600338, 0x220c), (0x444600338, 0x2224), (0x444a00338, 0x2226),
    (0x447800338, 0x2241), (0x448600338, 0x2244), (0x448a00338, 0x2247), (0x449000338, 0x2249),
    (0x449a00338, 0x226d), (0x44c200338, 0x2262), (0x44c800338, 0x2270), (0x44ca00338, 0x2271),
    (0x44e400338, 0x2274), (0x44e600338, 0x2275), (0x44ec00338, 0x2278), (0x44ee00338, 0x2279),
    (0x44f400338, 0x2280), (0x44f600338, 0x2281), (0x44f800338, 0x22e0), (0x44fa00338, 0x22e1),
    (0x450400338, 0x2284), (0x450600338, 0x2285), (0x450c00338, 0x2288), (0x450e00338, 0x2289),
    (0x452200338, 0x22e2), (0x452400338, 0x22e3), (0x454400338, 0x22ac), (0x455000338, 0x22ad),
    (0x455200338, 0x22ae), (0x455600338, 0x22af), (0x456400338, 0x22ea), (0x456600338, 0x22eb),
    (0x456800338, 0x22ec), (0x456a00338, 0x22ed), (0x608c03099, 0x3094), (0x609603099, 0x304c),
    (0x609a03099, 0x304e), (0x609e03099, 0x3050), (0x60a203099, 0x3052), (0x60a603099, 0x3054),
    (0x60aa03099, 0x3056), (0x60ae03099, 0x3058), (0x60b203099, 0x305a), (0x60b603099, 0x305c),
    (0x60ba03099, 0x305e), (0x60be03099, 0x3060), (0x60c203099, 0x3062), (0x60c803099, 0x3065),
    (0x60cc03099, 0x3067), (0x60d003099, 0x3069), (0x60de03099, 0x3070), (0x60de0309a, 0x3071),
    (0x60e403099, 0x3073), (0x60e40309a, 0x3074), (0x60ea03099, 0x3076), (0x60ea0309a, 0x3077),
    (0x60f003099, 0x3079), (0x60f00309a, 0x307a), (0x60f603099, 0x307c), (0x60f60309a, 0x307d),
    (0x613a03099, 0x309e), (0x614c03099, 0x30f4), (0x615603099, 0x30ac), (0x615a03099, 0x30ae),
    (0x615e03099, 0x30b0), (0x616203099, 0x30b2), (0x616603099, 0x30b4), (0x616a03099, 0x30b6),
    (0x616e03099, 0x30b8), (0x617203099, 0x30ba), (0x617603099, 0x30bc), (0x617a03099, 0x30be),
    (0x617e03099, 0x30c0), (0x618203099, 0x30c2), (0x618803099, 0x30c5), (0x618c03099, 0x30c7),
    (0x619003099, 0x30c9), (0x619e03099, 0x30d0), (0x619e0309a, 0x30d1), (0x61a403099, 0x30d3),
    (0x61a40309a, 0x30d4), (0x61aa03099, 0x30d6), (0x61aa0309a, 0x30d7), (0x61b003099, 0x30d9),
    (0x61b00309a, 0x30da), (0x61b603099, 0x30dc), (0x61b60309a, 0x30dd), (0x61de03099, 0x30f7),
    (0x61e003099, 0x30f8), (0x61e203099, 0x30f9), (0x61e403099, 0x30fa), (0x61fa03099, 0x30fe),
    (0x22132110ba, 0x1109a), (0x22136110ba, 0x1109c), (0x2214a110ba, 0x110ab),
    (0x2226211127, 0x1112e), (0x2226411127, 0x1112f), (0x2268e1133e, 0x1134b),
    (0x2268e11357, 0x1134c), (0x22972114b0, 0x114bc), (0x22972114ba, 0x114bb),
    (0x22972114bd, 0x114be), (0x22b70115af, 0x115ba), (0x22b72115af, 0x115bb),
    (0x2326a11930, 0x11938),
];

/// The rows of [`COMPOSE`].
pub closed spec fn table() -> Seq<(u64, u32)> {
    COMPOSE@
}

/// The rows of [`COMPOSE`].
pub fn rows() -> (r: &'static [(u64, u32)])
    ensures
        r@ == table(),
{
    &COMPOSE
}

/// What the table holds.
pub proof fn table_holds_the_rows()
    ensures
        table() == COMPOSE@,
{
}

/// The rows are in order.
pub proof fn lemma_order()
    ensures
        order::ascending(order::wide_keys(table())),
{
    let t = COMPOSE@;
    order::lemma_wides_start(t);
    order::lemma_wides_block(t, 0, 0);
    order::lemma_wides_block(t, 16, 16);
    order::lemma_wides_block(t, 32, 32);
    order::lemma_wides_block(t, 48, 48);
    order::lemma_wides_block(t, 64, 64);
    order::lemma_wides_block(t, 80, 80);
    order::lemma_wides_block(t, 96, 96);
    order::lemma_wides_block(t, 112, 112);
    order::lemma_wides_block(t, 128, 128);
    order::lemma_wides_block(t, 144, 144);
    order::lemma_wides_block(t, 160, 160);
    order::lemma_wides_block(t, 176, 176);
    order::lemma_wides_block(t, 192, 192);
    order::lemma_wides_block(t, 208, 208);
    order::lemma_wides_block(t, 224, 224);
    order::lemma_wides_block(t, 240, 240);
    order::lemma_wides_block(t, 256, 256);
    order::lemma_wides_block(t, 272, 272);
    order::lemma_wides_block(t, 288, 288);
    order::lemma_wides_block(t, 304, 304);
    order::lemma_wides_block(t, 320, 320);
    order::lemma_wides_block(t, 336, 336);
    order::lemma_wides_block(t, 352, 352);
    order::lemma_wides_block(t, 368, 368);
    order::lemma_wides_block(t, 384, 384);
    order::lemma_wides_block(t, 400, 400);
    order::lemma_wides_block(t, 416, 416);
    order::lemma_wides_block(t, 432, 432);
    order::lemma_wides_block(t, 448, 448);
    order::lemma_wides_block(t, 464, 464);
    order::lemma_wides_block(t, 480, 480);
    order::lemma_wides_block(t, 496, 496);
    order::lemma_wides_block(t, 512, 512);
    order::lemma_wides_block(t, 528, 528);
    order::lemma_wides_block(t, 544, 544);
    order::lemma_wides_block(t, 560, 560);
    order::lemma_wides_block(t, 576, 576);
    order::lemma_wides_block(t, 592, 592);
    order::lemma_wides_block(t, 608, 608);
    order::lemma_wides_block(t, 624, 624);
    order::lemma_wides_block(t, 640, 640);
    order::lemma_wides_block(t, 656, 656);
    order::lemma_wides_block(t, 672, 672);
    order::lemma_wides_block(t, 688, 688);
    order::lemma_wides_block(t, 704, 704);
    order::lemma_wides_block(t, 720, 720);
    order::lemma_wides_block(t, 736, 736);
    order::lemma_wides_block(t, 752, 752);
    order::lemma_wides_block(t, 768, 768);
    order::lemma_wides_block(t, 784, 784);
    order::lemma_wides_block(t, 800, 800);
    order::lemma_wides_block(t, 816, 816);
    order::lemma_wides_block(t, 832, 832);
    order::lemma_wides_block(t, 848, 848);
    order::lemma_wides_block(t, 864, 864);
    order::lemma_wides_block(t, 880, 880);
    order::lemma_wides_block(t, 896, 896);
    order::lemma_wides_block(t, 912, 912);
    order::lemma_wides_block(t, 928, 925);
    order::lemma_wides_ascend(t);
}

} // verus!
