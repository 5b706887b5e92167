//! Canonical decompositions to one code point.
use super::order;
use vstd::prelude::*;

verus! {

/// The code points that canonically decompose to one code point, and that one.
pub const DECOMPOSE_1: [(u32, u32); 1035] = [
    (0x340, 0x300), (0x341, 0x301), (0x343, 0x313), (0x374, 0x2b9), (0x37e, 0x3b), (0x387, 0xb7),
    (0x1f71, 0x3ac), (0x1f73, 0x3ad), (0x1f75, 0x3ae), (0x1f77, 0x3af), (0x1f79, 0x3cc),
    (0x1f7b, 0x3cd), (0x1f7d, 0x3ce), (0x1fbb, 0x386), (0x1fbe, 0x3b9), (0x1fc9, 0x388),
    (0x1fcb, 0x389), (0x1fd3, 0x390), (0x1fdb, 0x38a), (0x1fe3, 0x3b0), (0x1feb, 0x38e),
    (0x1fee, 0x385), (0x1fef, 0x60), (0x1ff9, 0x38c), (0x1ffb, 0x38f), (0x1ffd, 0xb4),
    (0x2000, 0x2002), (0x2001, 0x2003), (0x2126, 0x3a9), (0x212a, 0x4b), (0x212b, 0xc5),
    (0x2329, 0x3008), (0x232a, 0x3009), (0xf900, 0x8c48), (0xf901, 0x66f4), (0xf902, 0x8eca),
    (0xf903, 0x8cc8), (0xf904, 0x6ed1), (0xf905, 0x4e32), (0xf906, 0x53e5), (0xf907, 0x9f9c),
    (0xf908, 0x9f9c), (0xf909, 0x5951), (0xf90a, 0x91d1), (0xf90b, 0x5587), (0xf90c, 0x5948),
    (0xf90d, 0x61f6), (0xf90e, 0x7669), (0xf90f, 0x7f85), (0xf910, 0x863f), (0xf911, 0x87ba),
    (0xf912, 0x88f8), (0xf913, 0x908f), (0xf914, 0x6a02), (0xf915, 0x6d1b), (0xf916, 0x70d9),
    (0xf917, 0x73de), (0xf918, 0x843d), (0xf919, 0x916a), (0xf91a, 0x99f1), (0xf91b, 0x4e82),
    (0xf91c, 0x5375), (0xf91d, 0x6b04), (0xf91e, 0x721b), (0xf91f, 0x862d), (0xf920, 0x9e1e),
    (0xf921, 0x5d50), (0xf922, 0x6feb), (0xf923, 0x85cd), (0xf924, 0x8964), (0xf925, 0x62c9),
    (0xf926, 0x81d8), (0xf927, 0x881f), (0xf928, 0x5eca), (0xf929, 0x6717), (0xf92a, 0x6d6a),
    (0xf92b, 0x72fc), (0xf92c, 0x90ce), (0xf92d, 0x4f86), (0xf92e, 0x51b7), (0xf92f, 0x52de),
    (0xf930, 0x64c4), (0xf931, 0x6ad3), (0xf932, 0x7210), (0xf933, 0x76e7), (0xf934, 0x8001),
    (0xf935, 0x8606), (0xf936, 0x865c), (0xf937, 0x8def), (0xf938, 0x9732), (0xf939, 0x9b6f),
    (0xf93a, 0x9dfa), (0xf93b, 0x788c), (0xf93c, 0x797f), (0xf93d, 0x7da0), (0xf93e, 0x83c9),
    (0xf93f, 0x9304), (0xf940, 0x9e7f), (0xf941, 0x8ad6), (0xf942, 0x58df), (0xf943, 0x5f04),
    (0xf944, 0x7c60), (0xf945, 0x807e), (0xf946, 0x7262), (0xf947, 0x78ca), (0xf948, 0x8cc2),
    (0xf949, 0x96f7), (0xf94a, 0x58d8), (0xf94b, 0x5c62), (0xf94c, 0x6a13), (0xf94d, 0x6dda),
    (0xf94e, 0x6f0f), (0xf94f, 0x7d2f), (0xf950, 0x7e37), (0xf951, 0x964b), (0xf952, 0x52d2),
    (0xf953, 0x808b), (0xf954, 0x51dc), (0xf955, 0x51cc), (0xf956, 0x7a1c), (0xf957, 0x7dbe),
    (0xf958, 0x83f1), (0xf959, 0x9675), (0xf95a, 0x8b80), (0xf95b, 0x62cf), (0xf95c, 0x6a02),
    (0xf95d, 0x8afe), (0xf95e, 0x4e39), (0xf95f, 0x5be7), (0xf960, 0x6012), (0xf961, 0x7387),
    (0xf962, 0x7570), (0xf963, 0x5317), (0xf964, 0x78fb), (0xf965, 0x4fbf), (0xf966, 0x5fa9),
    (0xf967, 0x4e0d), (0xf968, 0x6ccc), (0xf969, 0x6578), (0xf96a, 0x7d22), (0xf96b, 0x53c3),
    (0xf96c, 0x585e), (0xf96d, 0x7701), (0xf96e, 0x8449), (0xf96f, 0x8aaa), (0xf970, 0x6bba),
    (0xf971, 0x8fb0), (0xf972, 0x6c88), (0xf973, 0x62fe), (0xf974, 0x82e5), (0xf975, 0x63a0),
    (0xf976, 0x7565), (0xf977, 0x4eae), (0xf978, 0x5169), (0xf979, 0x51c9), (0xf97a, 0x6881),
    (0xf97b, 0x7ce7), (0xf97c, 0x826f), (0xf97d, 0x8ad2), (0xf97e, 0x91cf), (0xf97f, 0x52f5),
    (0xf980, 0x5442), (0xf981, 0x5973), (0xf982, 0x5eec), (0xf983, 0x65c5), (0xf984, 0x6ffe),
    (0xf985, 0x792a), (0xf986, 0x95ad), (0xf987, 0x9a6a), (0xf988, 0x9e97), (0xf989, 0x9ece),
    (0xf98a, 0x529b), (0xf98b, 0x66c6), (0xf98c, 0x6b77), (0xf98d, 0x8f62), (0xf98e, 0x5e74),
    (0xf98f, 0x6190), (0xf990, 0x6200), (0xf991, 0x649a), (0xf992, 0x6f23), (0xf993, 0x7149),
    (0xf994, 0x7489), (0xf995, 0x79ca), (0xf996, 0x7df4), (0xf997, 0x806f), (0xf998, 0x8f26),
    (0xf999, 0x84ee), (0xf99a, 0x9023), (0xf99b, 0x934a), (0xf99c, 0x5217), (0xf99d, 0x52a3),
    (0xf99e, 0x54bd), (0xf99f, 0x70c8), (0xf9a0, 0x88c2), (0xf9a1, 0x8aaa), (0xf9a2, 0x5ec9),
    (0xf9a3, 0x5ff5), (0xf9a4, 0x637b), (0xf9a5, 0x6bae), (0xf9a6, 0x7c3e), (0xf9a7, 0x7375),
    (0xf9a8, 0x4ee4), (0xf9a9, 0x56f9), (0xf9aa, 0x5be7), (0xf9ab, 0x5dba), (0xf9ac, 0x601c),
    (0xf9ad, 0x73b2), (0xf9ae, 0x7469), (0xf9af, 0x7f9a), (0xf9b0, 0x8046), (0xf9b1, 0x9234),
    (0xf9b2, 0x96f6), (0xf9b3, 0x9748), (0xf9b4, 0x9818), (0xf9b5, 0x4f8b), (0xf9b6, 0x79ae),
    (0xf9b7, 0x91b4), (0xf9b8, 0x96b8), (0xf9b9, 0x60e1), (0xf9ba, 0x4e86), (0xf9bb, 0x50da),
    (0xf9bc, 0x5bee), (0xf9bd, 0x5c3f), (0xf9be, 0x6599), (0xf9bf, 0x6a02), (0xf9c0, 0x71ce),
    (0xf9c1, 0x7642), (0xf9c2, 0x84fc), (0xf9c3, 0x907c), (0xf9c4, 0x9f8d), (0xf9c5, 0x6688),
    (0xf9c6, 0x962e), (0xf9c7, 0x5289), (0xf9c8, 0x677b), (0xf9c9, 0x67f3), (0xf9ca, 0x6d41),
    (0xf9cb, 0x6e9c), (0xf9cc, 0x7409), (0xf9cd, 0x7559), (0xf9ce, 0x786b), (0xf9cf, 0x7d10),
    (0xf9d0, 0x985e), (0xf9d1, 0x516d), (0xf9d2, 0x622e), (0xf9d3, 0x9678), (0xf9d4, 0x502b),
    (0xf9d5, 0x5d19), (0xf9d6, 0x6dea), (0xf9d7, 0x8f2a), (0xf9d8, 0x5f8b), (0xf9d9, 0x6144),
    (0xf9da, 0x6817), (0xf9db, 0x7387), (0xf9dc, 0x9686), (0xf9dd, 0x5229), (0xf9de, 0x540f),
    (0xf9df, 0x5c65), (0xf9e0, 0x6613), (0xf9e1, 0x674e), (0xf9e2, 0x68a8), (0xf9e3, 0x6ce5),
    (0xf9e4, 0x7406), (0xf9e5, 0x75e2), (0xf9e6, 0x7f79), (0xf9e7, 0x88cf), (0xf9e8, 0x88e1),
    (0xf9e9, 0x91cc), (0xf9ea, 0x96e2), (0xf9eb, 0x533f), (0xf9ec, 0x6eba), (0xf9ed, 0x541d),
    (0xf9ee, 0x71d0), (0xf9ef, 0x7498), (0xf9f0, 0x85fa), (0xf9f1, 0x96a3), (0xf9f2, 0x9c57),
    (0xf9f3, 0x9e9f), (0xf9f4, 0x6797), (0xf9f5, 0x6dcb), (0xf9f6, 0x81e8), (0xf9f7, 0x7acb),
    (0xf9f8, 0x7b20), (0xf9f9, 0x7c92), (0xf9fa, 0x72c0), (0xf9fb, 0x7099), (0xf9fc, 0x8b58),
    (0xf9fd, 0x4ec0), (0xf9fe, 0x8336), (0xf9ff, 0x523a), (0xfa00, 0x5207), (0xfa01, 0x5ea6),
    (0xfa02, 0x62d3), (0xfa03, 0x7cd6), (0xfa04, 0x5b85), (0xfa05, 0x6d1e), (0xfa06, 0x66b4),
    (0xfa07, 0x8f3b), (0xfa08, 0x884c), (0xfa09, 0x964d), (0xfa0a, 0x898b), (0xfa0b, 0x5ed3),
    (0xfa0c, 0x5140), (0xfa0d, 0x55c0), (0xfa10, 0x585a), (0xfa12, 0x6674), (0xfa15, 0x51de),
    (0xfa16, 0x732a), (0xfa17, 0x76ca), (0xfa18, 0x793c), (0xfa19, 0x795e), (0xfa1a, 0x7965),
    (0xfa1b, 0x798f), (0xfa1c, 0x9756), (0xfa1d, 0x7cbe), (0xfa1e, 0x7fbd), (0xfa20, 0x8612),
    (0xfa22, 0x8af8), (0xfa25, 0x9038), (0xfa26, 0x90fd), (0xfa2a, 0x98ef), (0xfa2b, 0x98fc),
    (0xfa2c, 0x9928), (0xfa2d, 0x9db4), (0xfa2e, 0x90de), (0xfa2f, 0x96b7), (0xfa30, 0x4fae),
    (0xfa31, 0x50e7), (0xfa32, 0x514d), (0xfa33, 0x52c9), (0xfa34, 0x52e4), (0xfa35, 0x5351),
    (0xfa36, 0x559d), (0xfa37, 0x5606), (0xfa38, 0x5668), (0xfa39, 0x5840), (0xfa3a, 0x58a8),
    (0xfa3b, 0x5c64), (0xfa3c, 0x5c6e), (0xfa3d, 0x6094), (0xfa3e, 0x6168), (0xfa3f, 0x618e),
    (0xfa40, 0x61f2), (0xfa41, 0x654f), (0xfa42, 0x65e2), (0xfa43, 0x6691), (0xfa44, 0x6885),
    (0xfa45, 0x6d77), (0xfa46, 0x6e1a), (0xfa47, 0x6f22), (0xfa48, 0x716e), (0xfa49, 0x722b),
    (0xfa4a, 0x7422), (0xfa4b, 0x7891), (0xfa4c, 0x793e), (0xfa4d, 0x7949), (0xfa4e, 0x7948),
    (0xfa4f, 0x7950), (0xfa50, 0x7956), (0xfa51, 0x795d), (0xfa52, 0x798d), (0xfa53, 0x798e),
    (0xfa54, 0x7a40), (0xfa55, 0x7a81), (0xfa56, 0x7bc0), (0xfa57, 0x7df4), (0xfa58, 0x7e09),
    (0xfa59, 0x7e41), (0xfa5a, 0x7f72), (0xfa5b, 0x8005), (0xfa5c, 0x81ed), (0xfa5d, 0x8279),
    (0xfa5e, 0x8279), (0xfa5f, 0x8457), (0xfa60, 0x8910), (0xfa61, 0x8996), (0xfa62, 0x8b01),
    (0xfa63, 0x8b39), (0xfa64, 0x8cd3), (0xfa65, 0x8d08), (0xfa66, 0x8fb6), (0xfa67, 0x9038),
    (0xfa68, 0x96e3), (0xfa69, 0x97ff), (0xfa6a, 0x983b), (0xfa6b, 0x6075), (0xfa6c, 0x242ee),
    (0xfa6d, 0x8218), (0xfa70, 0x4e26), (0xfa71, 0x51b5), (0xfa72, 0x5168), (0xfa73, 0x4f80),
    (0xfa74, 0x5145), (0xfa75, 0x5180), (0xfa76, 0x52c7), (0xfa77, 0x52fa), (0xfa78, 0x559d),
    (0xfa79, 0x5555), (0xfa7a, 0x5599), (0xfa7b, 0x55e2), (0xfa7c, 0x585a), (0xfa7d, 0x58b3),
    (0xfa7e, 0x5944), (0xfa7f, 0x5954), (0xfa80, 0x5a62), (0xfa81, 0x5b28), (0xfa82, 0x5ed2),
    (0xfa83, 0x5ed9), (0xfa84, 0x5f69), (0xfa85, 0x5fad), (0xfa86, 0x60d8), (0xfa87, 0x614e),
    (0xfa88, 0x6108), (0xfa89, 0x618e), (0xfa8a, 0x6160), (0xfa8b, 0x61f2), (0xfa8c, 0x6234),
    (0xfa8d, 0x63c4), (0xfa8e, 0x641c), (0xfa8f, 0x6452), (0xfa90, 0x6556), (0xfa91, 0x6674),
    (0xfa92, 0x6717), (0xfa93, 0x671b), (0xfa94, 0x6756), (0xfa95, 0x6b79), (0xfa96, 0x6bba),
    (0xfa97, 0x6d41), (0xfa98, 0x6edb), (0xfa99, 0x6ecb), (0xfa9a, 0x6f22), (0xfa9b, 0x701e),
    (0xfa9c, 0x716e), (0xfa9d, 0x77a7), (0xfa9e, 0x7235), (0xfa9f, 0x72af), (0xfaa0, 0x732a),
    (0xfaa1, 0x7471), (0xfaa2, 0x7506), (0xfaa3, 0x753b), (0xfaa4, 0x761d), (0xfaa5, 0x761f),
    (0xfaa6, 0x76ca), (0xfaa7, 0x76db), (0xfaa8, 0x76f4), (0xfaa9, 0x774a), (0xfaaa, 0x7740),
    (0xfaab, 0x78cc), (0xfaac, 0x7ab1), (0xfaad, 0x7bc0), (0xfaae, 0x7c7b), (0xfaaf, 0x7d5b),
    (0xfab0, 0x7df4), (0xfab1, 0x7f3e), (0xfab2, 0x8005), (0xfab3, 0x8352), (0xfab4, 0x83ef),
    (0xfab5, 0x8779), (0xfab6, 0x8941), (0xfab7, 0x8986), (0xfab8, 0x8996), (0xfab9, 0x8abf),
    (0xfaba, 0x8af8), (0xfabb, 0x8acb), (0xfabc, 0x8b01), (0xfabd, 0x8afe), (0xfabe, 0x8aed),
    (0xfabf, 0x8b39), (0xfac0, 0x8b8a), (0xfac1, 0x8d08), (0xfac2, 0x8f38), (0xfac3, 0x9072),
    (0xfac4, 0x9199), (0xfac5, 0x9276), (0xfac6, 0x967c), (0xfac7, 0x96e3), (0xfac8, 0x9756),
    (0xfac9, 0x97db), (0xfaca, 0x97ff), (0xfacb, 0x980b), (0xfacc, 0x983b), (0xfacd, 0x9b12),
    (0xface, 0x9f9c), (0xfacf, 0x2284a), (0xfad0, 0x22844), (0xfad1, 0x233d5), (0xfad2, 0x3b9d),
    (0xfad3, 0x4018), (0xfad4, 0x4039), (0xfad5, 0x25249), (0xfad6, 0x25cd0), (0xfad7, 0x27ed3),
    (0xfad8, 0x9f43), (0xfad9, 0x9f8e), (0x2f800, 0x4e3d), (0x2f801, 0x4e38), (0x2f802, 0x4e41),
    (0x2f803, 0x20122), (0x2f804, 0x4f60), (0x2f805, 0x4fae), (0x2f806, 0x4fbb), (0x2f807, 0x5002),
    (0x2f808, 0x507a), (0x2f809, 0x5099), (0x2f80a, 0x50e7), (0x2f80b, 0x50cf), (0x2f80c, 0x349e),
    (0x2f80d, 0x2063a), (0x2f80e, 0x514d), (0x2f80f, 0x5154), (0x2f810, 0x5164), (0x2f811, 0x5177),
    (0x2f812, 0x2051c), (0x2f813, 0x34b9), (0x2f814, 0x5167), (0x2f815, 0x518d), (0x2f816, 0x2054b),
    (0x2f817, 0x5197), (0x2f818, 0x51a4), (0x2f819, 0x4ecc), (0x2f81a, 0x51ac), (0x2f81b, 0x51b5),
    (0x2f81c, 0x291df), (0x2f81d, 0x51f5), (0x2f81e, 0x5203), (0x2f81f, 0x34df), (0x2f820, 0x523b),
    (0x2f821, 0x5246), (0x2f822, 0x5272), (0x2f823, 0x5277), (0x2f824, 0x3515), (0x2f825, 0x52c7),
    (0x2f826, 0x52c9), (0x2f827, 0x52e4), (0x2f828, 0x52fa), (0x2f829, 0x5305), (0x2f82a, 0x5306),
    (0x2f82b, 0x5317), (0x2f82c, 0x5349), (0x2f82d, 0x5351), (0x2f82e, 0x535a), (0x2f82f, 0x5373),
    (0x2f830, 0x537d), (0x2f831, 0x537f), (0x2f832, 0x537f), (0x2f833, 0x537f), (0x2f834, 0x20a2c),
    (0x2f835, 0x7070), (0x2f836, 0x53ca), (0x2f837, 0x53df), (0x2f838, 0x20b63), (0x2f839, 0x53eb),
    (0x2f83a, 0x53f1), (0x2f83b, 0x5406), (0x2f83c, 0x549e), (0x2f83d, 0x5438), (0x2f83e, 0x5448),
    (0x2f83f, 0x5468), (0x2f840, 0x54a2), (0x2f841, 0x54f6), (0x2f842, 0x5510), (0x2f843, 0x5553),
    (0x2f844, 0x5563), (0x2f845, 0x5584), (0x2f846, 0x5584), (0x2f847, 0x5599), (0x2f848, 0x55ab),
    (0x2f849, 0x55b3), (0x2f84a, 0x55c2), (0x2f84b, 0x5716), (0x2f84c, 0x5606), (0x2f84d, 0x5717),
    (0x2f84e, 0x5651), (0x2f84f, 0x5674), (0x2f850, 0x5207), (0x2f851, 0x58ee), (0x2f852, 0x57ce),
    (0x2f853, 0x57f4), (0x2f854, 0x580d), (0x2f855, 0x578b), (0x2f856, 0x5832), (0x2f857, 0x5831),
    (0x2f858, 0x58ac), (0x2f859, 0x214e4), (0x2f85a, 0x58f2), (0x2f85b, 0x58f7), (0x2f85c, 0x5906),
    (0x2f85d, 0x591a), (0x2f85e, 0x5922), (0x2f85f, 0x5962), (0x2f860, 0x216a8), (0x2f861, 0x216ea),
    (0x2f862, 0x59ec), (0x2f863, 0x5a1b), (0x2f864, 0x5a27), (0x2f865, 0x59d8), (0x2f866, 0x5a66),
    (0x2f867, 0x36ee), (0x2f868, 0x36fc), (0x2f869, 0x5b08), (0x2f86a, 0x5b3e), (0x2f86b, 0x5b3e),
    (0x2f86c, 0x219c8), (0x2f86d, 0x5bc3), (0x2f86e, 0x5bd8), (0x2f86f, 0x5be7), (0x2f870, 0x5bf3),
    (0x2f871, 0x21b18), (0x2f872, 0x5bff), (0x2f873, 0x5c06), (0x2f874, 0x5f53), (0x2f875, 0x5c22),
    (0x2f876, 0x3781), (0x2f877, 0x5c60), (0x2f878, 0x5c6e), (0x2f879, 0x5cc0), (0x2f87a, 0x5c8d),
    (0x2f87b, 0x21de4), (0x2f87c, 0x5d43), (0x2f87d, 0x21de6), (0x2f87e, 0x5d6e), (0x2f87f, 0x5d6b),
    (0x2f880, 0x5d7c), (0x2f881, 0x5de1), (0x2f882, 0x5de2), (0x2f883, 0x382f), (0x2f884, 0x5dfd),
    (0x2f885, 0x5e28), (0x2f886, 0x5e3d), (0x2f887, 0x5e69), (0x2f888, 0x3862), (0x2f889, 0x22183),
    (0x2f88a, 0x387c), (0x2f88b, 0x5eb0), (0x2f88c, 0x5eb3), (0x2f88d, 0x5eb6), (0x2f88e, 0x5eca),
    (0x2f88f, 0x2a392), (0x2f890, 0x5efe), (0x2f891, 0x22331), (0x2f892, 0x22331),
    (0x2f893, 0x8201), (0x2f894, 0x5f22), (0x2f895, 0x5f22), (0x2f896, 0x38c7), (0x2f897, 0x232b8),
    (0x2f898, 0x261da), (0x2f899, 0x5f62), (0x2f89a, 0x5f6b), (0x2f89b, 0x38e3), (0x2f89c, 0x5f9a),
    (0x2f89d, 0x5fcd), (0x2f89e, 0x5fd7), (0x2f89f, 0x5ff9), (0x2f8a0, 0x6081), (0x2f8a1, 0x393a),
    (0x2f8a2, 0x391c), (0x2f8a3, 0x6094), (0x2f8a4, 0x226d4), (0x2f8a5, 0x60c7), (0x2f8a6, 0x6148),
    (0x2f8a7, 0x614c), (0x2f8a8, 0x614e), (0x2f8a9, 0x614c), (0x2f8aa, 0x617a), (0x2f8ab, 0x618e),
    (0x2f8ac, 0x61b2), (0x2f8ad, 0x61a4), (0x2f8ae, 0x61af), (0x2f8af, 0x61de), (0x2f8b0, 0x61f2),
    (0x2f8b1, 0x61f6), (0x2f8b2, 0x6210), (0x2f8b3, 0x621b), (0x2f8b4, 0x625d), (0x2f8b5, 0x62b1),
    (0x2f8b6, 0x62d4), (0x2f8b7, 0x6350), (0x2f8b8, 0x22b0c), (0x2f8b9, 0x633d), (0x2f8ba, 0x62fc),
    (0x2f8bb, 0x6368), (0x2f8bc, 0x6383), (0x2f8bd, 0x63e4), (0x2f8be, 0x22bf1), (0x2f8bf, 0x6422),
    (0x2f8c0, 0x63c5), (0x2f8c1, 0x63a9), (0x2f8c2, 0x3a2e), (0x2f8c3, 0x6469), (0x2f8c4, 0x647e),
    (0x2f8c5, 0x649d), (0x2f8c6, 0x6477), (0x2f8c7, 0x3a6c), (0x2f8c8, 0x654f), (0x2f8c9, 0x656c),
    (0x2f8ca, 0x2300a), (0x2f8cb, 0x65e3), (0x2f8cc, 0x66f8), (0x2f8cd, 0x6649), (0x2f8ce, 0x3b19),
    (0x2f8cf, 0x6691), (0x2f8d0, 0x3b08), (0x2f8d1, 0x3ae4), (0x2f8d2, 0x5192), (0x2f8d3, 0x5195),
    (0x2f8d4, 0x6700), (0x2f8d5, 0x669c), (0x2f8d6, 0x80ad), (0x2f8d7, 0x43d9), (0x2f8d8, 0x6717),
    (0x2f8d9, 0x671b), (0x2f8da, 0x6721), (0x2f8db, 0x675e), (0x2f8dc, 0x6753), (0x2f8dd, 0x233c3),
    (0x2f8de, 0x3b49), (0x2f8df, 0x67fa), (0x2f8e0, 0x6785), (0x2f8e1, 0x6852), (0x2f8e2, 0x6885),
    (0x2f8e3, 0x2346d), (0x2f8e4, 0x688e), (0x2f8e5, 0x681f), (0x2f8e6, 0x6914), (0x2f8e7, 0x3b9d),
    (0x2f8e8, 0x6942), (0x2f8e9, 0x69a3), (0x2f8ea, 0x69ea), (0x2f8eb, 0x6aa8), (0x2f8ec, 0x236a3),
    (0x2f8ed, 0x6adb), (0x2f8ee, 0x3c18), (0x2f8ef, 0x6b21), (0x2f8f0, 0x238a7), (0x2f8f1, 0x6b54),
    (0x2f8f2, 0x3c4e), (0x2f8f3, 0x6b72), (0x2f8f4, 0x6b9f), (0x2f8f5, 0x6bba), (0x2f8f6, 0x6bbb),
    (0x2f8f7, 0x23a8d), (0x2f8f8, 0x21d0b), (0x2f8f9, 0x23afa), (0x2f8fa, 0x6c4e),
    (0x2f8fb, 0x23cbc), (0x2f8fc, 0x6cbf), (0x2f8fd, 0x6ccd), (0x2f8fe, 0x6c67), (0x2f8ff, 0x6d16),
    (0x2f900, 0x6d3e), (0x2f901, 0x6d77), (0x2f902, 0x6d41), (0x2f903, 0x6d69), (0x2f904, 0x6d78),
    (0x2f905, 0x6d85), (0x2f906, 0x23d1e), (0x2f907, 0x6d34), (0x2f908, 0x6e2f), (0x2f909, 0x6e6e),
    (0x2f90a, 0x3d33), (0x2f90b, 0x6ecb), (0x2f90c, 0x6ec7), (0x2f90d, 0x23ed1), (0x2f90e, 0x6df9),
    (0x2f90f, 0x6f6e), (0x2f910, 0x23f5e), (0x2f911, 0x23f8e), (0x2f912, 0x6fc6), (0x2f913, 0x7039),
    (0x2f914, 0x701e), (0x2f915, 0x701b), (0x2f916, 0x3d96), (0x2f917, 0x704a), (0x2f918, 0x707d),
    (0x2f919, 0x7077), (0x2f91a, 0x70ad), (0x2f91b, 0x20525), (0x2f91c, 0x7145), (0x2f91d, 0x24263),
    (0x2f91e, 0x719c), (0x2f91f, 0x243ab), (0x2f920, 0x7228), (0x2f921, 0x7235), (0x2f922, 0x7250),
    (0x2f923, 0x24608), (0x2f924, 0x7280), (0x2f925, 0x7295), (0x2f926, 0x24735),
    (0x2f927, 0x24814), (0x2f928, 0x737a), (0x2f929, 0x738b), (0x2f92a, 0x3eac), (0x2f92b, 0x73a5),
    (0x2f92c, 0x3eb8), (0x2f92d, 0x3eb8), (0x2f92e, 0x7447), (0x2f92f, 0x745c), (0x2f930, 0x7471),
    (0x2f931, 0x7485), (0x2f932, 0x74ca), (0x2f933, 0x3f1b), (0x2f934, 0x7524), (0x2f935, 0x24c36),
    (0x2f936, 0x753e), (0x2f937, 0x24c92), (0x2f938, 0x7570), (0x2f939, 0x2219f), (0x2f93a, 0x7610),
    (0x2f93b, 0x24fa1), (0x2f93c, 0x24fb8), (0x2f93d, 0x25044), (0x2f93e, 0x3ffc),
    (0x2f93f, 0x4008), (0x2f940, 0x76f4), (0x2f941, 0x250f3), (0x2f942, 0x250f2),
    (0x2f943, 0x25119), (0x2f944, 0x25133), (0x2f945, 0x771e), (0x2f946, 0x771f), (0x2f947, 0x771f),
    (0x2f948, 0x774a), (0x2f949, 0x4039), (0x2f94a, 0x778b), (0x2f94b, 0x4046), (0x2f94c, 0x4096),
    (0x2f94d, 0x2541d), (0x2f94e, 0x784e), (0x2f94f, 0x788c), (0x2f950, 0x78cc), (0x2f951, 0x40e3),
    (0x2f952, 0x25626), (0x2f953, 0x7956), (0x2f954, 0x2569a), (0x2f955, 0x256c5),
    (0x2f956, 0x798f), (0x2f957, 0x79eb), (0x2f958, 0x412f), (0x2f959, 0x7a40), (0x2f95a, 0x7a4a),
    (0x2f95b, 0x7a4f), (0x2f95c, 0x2597c), (0x2f95d, 0x25aa7), (0x2f95e, 0x25aa7),
    (0x2f95f, 0x7aee), (0x2f960, 0x4202), (0x2f961, 0x25bab), (0x2f962, 0x7bc6), (0x2f963, 0x7bc9),
    (0x2f964, 0x4227), (0x2f965, 0x25c80), (0x2f966, 0x7cd2), (0x2f967, 0x42a0), (0x2f968, 0x7ce8),
    (0x2f969, 0x7ce3), (0x2f96a, 0x7d00), (0x2f96b, 0x25f86), (0x2f96c, 0x7d63), (0x2f96d, 0x4301),
    (0x2f96e, 0x7dc7), (0x2f96f, 0x7e02), (0x2f970, 0x7e45), (0x2f971, 0x4334), (0x2f972, 0x26228),
    (0x2f973, 0x26247), (0x2f974, 0x4359), (0x2f975, 0x262d9), (0x2f976, 0x7f7a),
    (0x2f977, 0x2633e), (0x2f978, 0x7f95), (0x2f979, 0x7ffa), (0x2f97a, 0x8005), (0x2f97b, 0x264da),
    (0x2f97c, 0x26523), (0x2f97d, 0x8060), (0x2f97e, 0x265a8), (0x2f97f, 0x8070),
    (0x2f980, 0x2335f), (0x2f981, 0x43d5), (0x2f982, 0x80b2), (0x2f983, 0x8103), (0x2f984, 0x440b),
    (0x2f985, 0x813e), (0x2f986, 0x5ab5), (0x2f987, 0x267a7), (0x2f988, 0x267b5),
    (0x2f989, 0x23393), (0x2f98a, 0x2339c), (0x2f98b, 0x8201), (0x2f98c, 0x8204), (0x2f98d, 0x8f9e),
    (0x2f98e, 0x446b), (0x2f98f, 0x8291), (0x2f990, 0x828b), (0x2f991, 0x829d), (0x2f992, 0x52b3),
    (0x2f993, 0x82b1), (0x2f994, 0x82b3), (0x2f995, 0x82bd), (0x2f996, 0x82e6), (0x2f997, 0x26b3c),
    (0x2f998, 0x82e5), (0x2f999, 0x831d), (0x2f99a, 0x8363), (0x2f99b, 0x83ad), (0x2f99c, 0x8323),
    (0x2f99d, 0x83bd), (0x2f99e, 0x83e7), (0x2f99f, 0x8457), (0x2f9a0, 0x8353), (0x2f9a1, 0x83ca),
    (0x2f9a2, 0x83cc), (0x2f9a3, 0x83dc), (0x2f9a4, 0x26c36), (0x2f9a5, 0x26d6b),
    (0x2f9a6, 0x26cd5), (0x2f9a7, 0x452b), (0x2f9a8, 0x84f1), (0x2f9a9, 0x84f3), (0x2f9aa, 0x8516),
    (0x2f9ab, 0x273ca), (0x2f9ac, 0x8564), (0x2f9ad, 0x26f2c), (0x2f9ae, 0x455d), (0x2f9af, 0x4561),
    (0x2f9b0, 0x26fb1), (0x2f9b1, 0x270d2), (0x2f9b2, 0x456b), (0x2f9b3, 0x8650), (0x2f9b4, 0x865c),
    (0x2f9b5, 0x8667), (0x2f9b6, 0x8669), (0x2f9b7, 0x86a9), (0x2f9b8, 0x8688), (0x2f9b9, 0x870e),
    (0x2f9ba, 0x86e2), (0x2f9bb, 0x8779), (0x2f9bc, 0x8728), (0x2f9bd, 0x876b), (0x2f9be, 0x8786),
    (0x2f9bf, 0x45d7), (0x2f9c0, 0x87e1), (0x2f9c1, 0x8801), (0x2f9c2, 0x45f9), (0x2f9c3, 0x8860),
    (0x2f9c4, 0x8863), (0x2f9c5, 0x27667), (0x2f9c6, 0x88d7), (0x2f9c7, 0x88de), (0x2f9c8, 0x4635),
    (0x2f9c9, 0x88fa), (0x2f9ca, 0x34bb), (0x2f9cb, 0x278ae), (0x2f9cc, 0x27966), (0x2f9cd, 0x46be),
    (0x2f9ce, 0x46c7), (0x2f9cf, 0x8aa0), (0x2f9d0, 0x8aed), (0x2f9d1, 0x8b8a), (0x2f9d2, 0x8c55),
    (0x2f9d3, 0x27ca8), (0x2f9d4, 0x8cab), (0x2f9d5, 0x8cc1), (0x2f9d6, 0x8d1b), (0x2f9d7, 0x8d77),
    (0x2f9d8, 0x27f2f), (0x2f9d9, 0x20804), (0x2f9da, 0x8dcb), (0x2f9db, 0x8dbc), (0x2f9dc, 0x8df0),
    (0x2f9dd, 0x208de), (0x2f9de, 0x8ed4), (0x2f9df, 0x8f38), (0x2f9e0, 0x285d2),
    (0x2f9e1, 0x285ed), (0x2f9e2, 0x9094), (0x2f9e3, 0x90f1), (0x2f9e4, 0x9111), (0x2f9e5, 0x2872e),
    (0x2f9e6, 0x911b), (0x2f9e7, 0x9238), (0x2f9e8, 0x92d7), (0x2f9e9, 0x92d8), (0x2f9ea, 0x927c),
    (0x2f9eb, 0x93f9), (0x2f9ec, 0x9415), (0x2f9ed, 0x28bfa), (0x2f9ee, 0x958b), (0x2f9ef, 0x4995),
    (0x2f9f0, 0x95b7), (0x2f9f1, 0x28d77), (0x2f9f2, 0x49e6), (0x2f9f3, 0x96c3), (0x2f9f4, 0x5db2),
    (0x2f9f5, 0x9723), (0x2f9f6, 0x29145), (0x2f9f7, 0x2921a), (0x2f9f8, 0x4a6e), (0x2f9f9, 0x4a76),
    (0x2f9fa, 0x97e0), (0x2f9fb, 0x2940a), (0x2f9fc, 0x4ab2), (0x2f9fd, 0x29496), (0x2f9fe, 0x980b),
    (0x2f9ff, 0x980b), (0x2fa00, 0x9829), (0x2fa01, 0x295b6), (0x2fa02, 0x98e2), (0x2fa03, 0x4b33),
    (0x2fa04, 0x9929), (0x2fa05, 0x99a7), (0x2fa06, 0x99c2), (0x2fa07, 0x99fe), (0x2fa08, 0x4bce),
    (0x2fa09, 0x29b30), (0x2fa0a, 0x9b12), (0x2fa0b, 0x9c40), (0x2fa0c, 0x9cfd), (0x2fa0d, 0x4cce),
    (0x2fa0e, 0x4ced), (0x2fa0f, 0x9d67), (0x2fa10, 0x2a0ce), (0x2fa11, 0x4cf8), (0x2fa12, 0x2a105),
    (0x2fa13, 0x2a20e), (0x2fa14, 0x2a291), (0x2fa15, 0x9ebb), (0x2fa16, 0x4d56), (0x2fa17, 0x9ef9),
    (0x2fa18, 0x9efe), (0x2fa19, 0x9f05), (0x2fa1a, 0x9f0f), (0x2fa1b, 0x9f16), (0x2fa1c, 0x9f3b),
    (0x2fa1d, 0x2a600),
];

/// The rows of [`DECOMPOSE_1`].
pub closed spec fn table() -> Seq<(u32, u32)> {
    DECOMPOSE_1@
}

/// The rows of [`DECOMPOSE_1`].
pub fn rows() -> (r: &'static [(u32, u32)])
    ensures
        r@ == table(),
{
    &DECOMPOSE_1
}

/// What the table holds.
pub proof fn table_holds_the_rows()
    ensures
        table() == DECOMPOSE_1@,
{
}

/// The rows are in order.
pub proof fn lemma_order()
    ensures
        order::ascending(order::pair_keys(table())),
{
    let t = DECOMPOSE_1@;
    order::lemma_pairs_start(t);
    order::lemma_pairs_block(t, 0, 0);
    order::lemma_pairs_block(t, 16, 16);
    order::lemma_pairs_block(t, 32, 32);
    order::lemma_pairs_block(t, 48, 48);
    order::lemma_pairs_block(t, 64, 64);
    order::lemma_pairs_block(t, 80, 80);
    order::lemma_pairs_block(t, 96, 96);
    order::lemma_pairs_block(t, 112, 112);
    order::lemma_pairs_block(t, 128, 128);
    order::lemma_pairs_block(t, 144, 144);
    order::lemma_pairs_block(t, 160, 160);
    order::lemma_pairs_block(t, 176, 176);
    order::lemma_pairs_block(t, 192, 192);
    order::lemma_pairs_block(t, 208, 208);
    order::lemma_pairs_block(t, 224, 224);
    order::lemma_pairs_block(t, 240, 240);
    order::lemma_pairs_block(t, 256, 256);
    order::lemma_pairs_block(t, 272, 272);
    order::lemma_pairs_block(t, 288, 288);
    order::lemma_pairs_block(t, 304, 304);
    order::lemma_pairs_block(t, 320, 320);
    order::lemma_pairs_block(t, 336, 336);
    order::lemma_pairs_block(t, 352, 352);
    order::lemma_pairs_block(t, 368, 368);
    order::lemma_pairs_block(t, 384, 384);
    order::lemma_pairs_block(t, 400, 400);
    order::lemma_pairs_block(t, 416, 416);
    order::lemma_pairs_block(t, 432, 432);
    order::lemma_pairs_block(t, 448, 448);
    order::lemma_pairs_block(t, 464, 464);
    order::lemma_pairs_block(t, 480, 480);
    order::lemma_pairs_block(t, 496, 496);
    order::lemma_pairs_block(t, 512, 512);
    order::lemma_pairs_block(t, 528, 528);
    order::lemma_pairs_block(t, 544, 544);
    order::lemma_pairs_block(t, 560, 560);
    order::lemma_pairs_block(t, 576, 576);
    order::lemma_pairs_block(t, 592, 592);
    order::lemma_pairs_block(t, 608, 608);
    order::lemma_pairs_block(t, 624, 624);
    order::lemma_pairs_block(t, 640, 640);
    order::lemma_pairs_block(t, 656, 656);
    order::lemma_pairs_block(t, 672, 672);
    order::lemma_pairs_block(t, 688, 688);
    order::lemma_pairs_block(t, 704, 704);
    order::lemma_pairs_block(t, 720, 720);
    order::lemma_pairs_block(t, 736, 736);
    order::lemma_pairs_block(t, 752, 752);
    order::lemma_pairs_block(t, 768, 768);
    order::lemma_pairs_block(t, 784, 784);
    order::lemma_pairs_block(t, 800, 800);
    order::lemma_pairs_block(t, 816, 816);
    order::lemma_pairs_block(t, 832, 832);
    order::lemma_pairs_block(t, 848, 848);
    order::lemma_pairs_block(t, 864, 864);
    order::lemma_pairs_block(t, 880, 880);
    order::lemma_pairs_block(t, 896, 896);
    order::lemma_pairs_block(t, 912, 912);
    order::lemma_pairs_block(t, 928, 928);
    order::lemma_pairs_block(t, 944, 944);
    order::lemma_pairs_block(t, 960, 960);
    order::lemma_pairs_block(t, 976, 976);
    order::lemma_pairs_block(t, 992, 992);
    order::lemma_pairs_block(t, 1008, 1008);
    order::lemma_pairs_block(t, 1024, 1019);
    order::lemma_pairs_ascend(t);
}

/// The rows round ASCII and round the Hangul jamo.
pub proof fn lemma_landmarks()
    ensures
        table().len() > 6,
        table()[0].0 == 0x340,
        table()[5].0 == 0x387,
        table()[6].0 == 0x1f71,
{
}

/// The rows round the tone marks.
pub proof fn lemma_tone_marks()
    ensures
        table().len() > 3,
        table()[0] == (0x340u32, 0x300u32),
        table()[1] == (0x341u32, 0x301u32),
        table()[2] == (0x343u32, 0x313u32),
        table()[3].0 > 0x344,
{
}

} // verus!
