//! Cosine and sine of the angles of whole degrees.
use vstd::prelude::*;
use crate::fixed::{Rotation, UNIT};

verus! {

/// The cosine of `degrees` degrees, for an angle from 0 to 90, in millionths.
pub open spec fn quadrant_cosine(degrees: int) -> int {
    if degrees == 0 {
        1_000_000
    } else if degrees == 1 {
        999_848
    } else if degrees == 2 {
        999_391
    } else if degrees == 3 {
        998_630
    } else if degrees == 4 {
        997_564
    } else if degrees == 5 {
        996_195
    } else if degrees == 6 {
        994_522
    } else if degrees == 7 {
        992_546
    } else if degrees == 8 {
        990_268
    } else if degrees == 9 {
        987_688
    } else if degrees == 10 {
        984_808
    } else if degrees == 11 {
        981_627
    } else if degrees == 12 {
        978_148
    } else if degrees == 13 {
        974_370
    } else if degrees == 14 {
        970_296
    } else if degrees == 15 {
        965_926
    } else if degrees == 16 {
        961_262
    } else if degrees == 17 {
        956_305
    } else if degrees == 18 {
        951_057
    } else if degrees == 19 {
        945_519
    } else if degrees == 20 {
        939_693
    } else if degrees == 21 {
        933_580
    } else if degrees == 22 {
        927_184
    } else if degrees == 23 {
        920_505
    } else if degrees == 24 {
        913_545
    } else if degrees == 25 {
        906_308
    } else if degrees == 26 {
        898_794
    } else if degrees == 27 {
        891_007
    } else if degrees == 28 {
        882_948
    } else if degrees == 29 {
        874_620
    } else if degrees == 30 {
        866_025
    } else if degrees == 31 {
        857_167
    } else if degrees == 32 {
        848_048
    } else if degrees == 33 {
        838_671
    } else if degrees == 34 {
        829_038
    } else if degrees == 35 {
        819_152
    } else if degrees == 36 {
        809_017
    } else if degrees == 37 {
        798_636
    } else if degrees == 38 {
        788_011
    } else if degrees == 39 {
        777_146
    } else if degrees == 40 {
        766_044
    } else if degrees == 41 {
        754_710
    } else if degrees == 42 {
        743_145
    } else if degrees == 43 {
        731_354
    } else if degrees == 44 {
        719_340
    } else if degrees == 45 {
        707_107
    } else if degrees == 46 {
        694_658
    } else if degrees == 47 {
        681_998
    } else if degrees == 48 {
        669_131
    } else if degrees == 49 {
        656_059
    } else if degrees == 50 {
        642_788
    } else if degrees == 51 {
        629_320
    } else if degrees == 52 {
        615_661
    } else if degrees == 53 {
        601_815
    } else if degrees == 54 {
        587_785
    } else if degrees == 55 {
        573_576
    } else if degrees == 56 {
        559_193
    } else if degrees == 57 {
        544_639
    } else if degrees == 58 {
        529_919
    } else if degrees == 59 {
        515_038
    } else if degrees == 60 {
        500_000
    } else if degrees == 61 {
        484_810
    } else if degrees == 62 {
        469_472
    } else if degrees == 63 {
        453_990
    } else if degrees == 64 {
        438_371
    } else if degrees == 65 {
        422_618
    } else if degrees == 66 {
        406_737
    } else if degrees == 67 {
        390_731
    } else if degrees == 68 {
        374_607
    } else if degrees == 69 {
        358_368
    } else if degrees == 70 {
        342_020
    } else if degrees == 71 {
        325_568
    } else if degrees == 72 {
        309_017
    } else if degrees == 73 {
        292_372
    } else if degrees == 74 {
        275_637
    } else if degrees == 75 {
        258_819
    } else if degrees == 76 {
        241_922
    } else if degrees == 77 {
        224_951
    } else if degrees == 78 {
        207_912
    } else if degrees == 79 {
        190_809
    } else if degrees == 80 {
        173_648
    } else if degrees == 81 {
        156_434
    } else if degrees == 82 {
        139_173
    } else if degrees == 83 {
        121_869
    } else if degrees == 84 {
        104_528
    } else if degrees == 85 {
        87_156
    } else if degrees == 86 {
        69_756
    } else if degrees == 87 {
        52_336
    } else if degrees == 88 {
        34_899
    } else if degrees == 89 {
        17_452
    } else {
        0
    }
}

fn quadrant_cosine_of(degrees: u32) -> (c: i64)
    requires
        degrees <= 90,
    ensures
        c == quadrant_cosine(degrees as int),
        0 <= c <= UNIT,
{
    if degrees == 0 {
        1_000_000
    } else if degrees == 1 {
        999_848
    } else if degrees == 2 {
        999_391
    } else if degrees == 3 {
        998_630
    } else if degrees == 4 {
        997_564
    } else if degrees == 5 {
        996_195
    } else if degrees == 6 {
        994_522
    } else if degrees == 7 {
        992_546
    } else if degrees == 8 {
        990_268
    } else if degrees == 9 {
        987_688
    } else if degrees == 10 {
        984_808
    } else if degrees == 11 {
        981_627
    } else if degrees == 12 {
        978_148
    } else if degrees == 13 {
        974_370
    } else if degrees == 14 {
        970_296
    } else if degrees == 15 {
        965_926
    } else if degrees == 16 {
        961_262
    } else if degrees == 17 {
        956_305
    } else if degrees == 18 {
        951_057
    } else if degrees == 19 {
        945_519
    } else if degrees == 20 {
        939_693
    } else if degrees == 21 {
        933_580
    } else if degrees == 22 {
        927_184
    } else if degrees == 23 {
        920_505
    } else if degrees == 24 {
        913_545
    } else if degrees == 25 {
        906_308
    } else if degrees == 26 {
        898_794
    } else if degrees == 27 {
        891_007
    } else if degrees == 28 {
        882_948
    } else if degrees == 29 {
        874_620
    } else if degrees == 30 {
        866_025
    } else if degrees == 31 {
        857_167
    } else if degrees == 32 {
        848_048
    } else if degrees == 33 {
        838_671
    } else if degrees == 34 {
        829_038
    } else if degrees == 35 {
        819_152
    } else if degrees == 36 {
        809_017
    } else if degrees == 37 {
        798_636
    } else if degrees == 38 {
        788_011
    } else if degrees == 39 {
        777_146
    } else if degrees == 40 {
        766_044
    } else if degrees == 41 {
        754_710
    } else if degrees == 42 {
        743_145
    } else if degrees == 43 {
        731_354
    } else if degrees == 44 {
        719_340
    } else if degrees == 45 {
        707_107
    } else if degrees == 46 {
        694_658
    } else if degrees == 47 {
        681_998
    } else if degrees == 48 {
        669_131
    } else if degrees == 49 {
        656_059
    } else if degrees == 50 {
        642_788
    } else if degrees == 51 {
        629_320
    } else if degrees == 52 {
        615_661
    } else if degrees == 53 {
        601_815
    } else if degrees == 54 {
        587_785
    } else if degrees == 55 {
        573_576
    } else if degrees == 56 {
        559_193
    } else if degrees == 57 {
        544_639
    } else if degrees == 58 {
        529_919
    } else if degrees == 59 {
        515_038
    } else if degrees == 60 {
        500_000
    } else if degrees == 61 {
        484_810
    } else if degrees == 62 {
        469_472
    } else if degrees == 63 {
        453_990
    } else if degrees == 64 {
        438_371
    } else if degrees == 65 {
        422_618
    } else if degrees == 66 {
        406_737
    } else if degrees == 67 {
        390_731
    } else if degrees == 68 {
        374_607
    } else if degrees == 69 {
        358_368
    } else if degrees == 70 {
        342_020
    } else if degrees == 71 {
        325_568
    } else if degrees == 72 {
        309_017
    } else if degrees == 73 {
        292_372
    } else if degrees == 74 {
        275_637
    } else if degrees == 75 {
        258_819
    } else if degrees == 76 {
        241_922
    } else if degrees == 77 {
        224_951
    } else if degrees == 78 {
        207_912
    } else if degrees == 79 {
        190_809
    } else if degrees == 80 {
        173_648
    } else if degrees == 81 {
        156_434
    } else if degrees == 82 {
        139_173
    } else if degrees == 83 {
        121_869
    } else if degrees == 84 {
        104_528
    } else if degrees == 85 {
        87_156
    } else if degrees == 86 {
        69_756
    } else if degrees == 87 {
        52_336
    } else if degrees == 88 {
        34_899
    } else if degrees == 89 {
        17_452
    } else {
        0
    }
}

/// The cosine of an angle of `degrees` degrees, a whole number from 0 up to
/// 359, in millionths.
pub open spec fn cosine(degrees: int) -> int {
    if degrees <= 90 {
        quadrant_cosine(degrees)
    } else if degrees <= 180 {
        -quadrant_cosine(180 - degrees)
    } else if degrees <= 270 {
        -quadrant_cosine(degrees - 180)
    } else {
        quadrant_cosine(360 - degrees)
    }
}

/// The sine of an angle of `degrees` degrees, a whole number from 0 up to
/// 359, in millionths: the cosine of the angle less a right angle.
pub open spec fn sine(degrees: int) -> int {
    if degrees >= 90 {
        cosine(degrees - 90)
    } else {
        cosine(degrees + 270)
    }
}

/// The squares of the cosines of an angle and of what it lacks to a right
/// angle add up to 1, give or take two millionths.
proof fn lemma_unit_quadrant(degrees: int)
    requires
        0 <= degrees <= 90,
    ensures
        -2_000_000 <= quadrant_cosine(degrees) * quadrant_cosine(degrees) + quadrant_cosine(
            90 - degrees,
        ) * quadrant_cosine(90 - degrees) - 1_000_000_000_000 <= 2_000_000,
{
    if degrees == 0 {
        assert(quadrant_cosine(0) == 1_000_000 && quadrant_cosine(90) == 0);
        assert(1_000_000int * 1_000_000 + 0int * 0 == 1_000_000_000_000);
    } else if degrees == 1 {
        assert(quadrant_cosine(1) == 999_848 && quadrant_cosine(89) == 17_452);
        assert(999_848int * 999_848 + 17_452int * 17_452 == 1_000_000_595_408);
    } else if degrees == 2 {
        assert(quadrant_cosine(2) == 999_391 && quadrant_cosine(88) == 34_899);
        assert(999_391int * 999_391 + 34_899int * 34_899 == 1_000_000_311_082);
    } else if degrees == 3 {
        assert(quadrant_cosine(3) == 998_630 && quadrant_cosine(87) == 52_336);
        assert(998_630int * 998_630 + 52_336int * 52_336 == 1_000_000_933_796);
    } else if degrees == 4 {
        assert(quadrant_cosine(4) == 997_564 && quadrant_cosine(86) == 69_756);
        assert(997_564int * 997_564 + 69_756int * 69_756 == 999_999_833_632);
    } else if degrees == 5 {
        assert(quadrant_cosine(5) == 996_195 && quadrant_cosine(85) == 87_156);
        assert(996_195int * 996_195 + 87_156int * 87_156 == 1_000_000_646_361);
    } else if degrees == 6 {
        assert(quadrant_cosine(6) == 994_522 && quadrant_cosine(84) == 104_528);
        assert(994_522int * 994_522 + 104_528int * 104_528 == 1_000_000_111_268);
    } else if degrees == 7 {
        assert(quadrant_cosine(7) == 992_546 && quadrant_cosine(83) == 121_869);
        assert(992_546int * 992_546 + 121_869int * 121_869 == 999_999_615_277);
    } else if degrees == 8 {
        assert(quadrant_cosine(8) == 990_268 && quadrant_cosine(82) == 139_173);
        assert(990_268int * 990_268 + 139_173int * 139_173 == 999_999_835_753);
    } else if degrees == 9 {
        assert(quadrant_cosine(9) == 987_688 && quadrant_cosine(81) == 156_434);
        assert(987_688int * 987_688 + 156_434int * 156_434 == 999_999_181_700);
    } else if degrees == 10 {
        assert(quadrant_cosine(10) == 984_808 && quadrant_cosine(80) == 173_648);
        assert(984_808int * 984_808 + 173_648int * 173_648 == 1_000_000_424_768);
    } else if degrees == 11 {
        assert(quadrant_cosine(11) == 981_627 && quadrant_cosine(79) == 190_809);
        assert(981_627int * 981_627 + 190_809int * 190_809 == 999_999_641_610);
    } else if degrees == 12 {
        assert(quadrant_cosine(12) == 978_148 && quadrant_cosine(78) == 207_912);
        assert(978_148int * 978_148 + 207_912int * 207_912 == 1_000_000_909_648);
    } else if degrees == 13 {
        assert(quadrant_cosine(13) == 974_370 && quadrant_cosine(77) == 224_951);
        assert(974_370int * 974_370 + 224_951int * 224_951 == 999_999_849_301);
    } else if degrees == 14 {
        assert(quadrant_cosine(14) == 970_296 && quadrant_cosine(76) == 241_922);
        assert(970_296int * 970_296 + 241_922int * 241_922 == 1_000_000_581_700);
    } else if degrees == 15 {
        assert(quadrant_cosine(15) == 965_926 && quadrant_cosine(75) == 258_819);
        assert(965_926int * 965_926 + 258_819int * 258_819 == 1_000_000_312_237);
    } else if degrees == 16 {
        assert(quadrant_cosine(16) == 961_262 && quadrant_cosine(74) == 275_637);
        assert(961_262int * 961_262 + 275_637int * 275_637 == 1_000_000_388_413);
    } else if degrees == 17 {
        assert(quadrant_cosine(17) == 956_305 && quadrant_cosine(73) == 292_372);
        assert(956_305int * 956_305 + 292_372int * 292_372 == 1_000_000_639_409);
    } else if degrees == 18 {
        assert(quadrant_cosine(18) == 951_057 && quadrant_cosine(72) == 309_017);
        assert(951_057int * 951_057 + 309_017int * 309_017 == 1_000_000_923_538);
    } else if degrees == 19 {
        assert(quadrant_cosine(19) == 945_519 && quadrant_cosine(71) == 325_568);
        assert(945_519int * 945_519 + 325_568int * 325_568 == 1_000_000_701_985);
    } else if degrees == 20 {
        assert(quadrant_cosine(20) == 939_693 && quadrant_cosine(70) == 342_020);
        assert(939_693int * 939_693 + 342_020int * 342_020 == 1_000_000_614_649);
    } else if degrees == 21 {
        assert(quadrant_cosine(21) == 933_580 && quadrant_cosine(69) == 358_368);
        assert(933_580int * 933_580 + 358_368int * 358_368 == 999_999_239_824);
    } else if degrees == 22 {
        assert(quadrant_cosine(22) == 927_184 && quadrant_cosine(68) == 374_607);
        assert(927_184int * 927_184 + 374_607int * 374_607 == 1_000_000_574_305);
    } else if degrees == 23 {
        assert(quadrant_cosine(23) == 920_505 && quadrant_cosine(67) == 390_731);
        assert(920_505int * 920_505 + 390_731int * 390_731 == 1_000_000_169_386);
    } else if degrees == 24 {
        assert(quadrant_cosine(24) == 913_545 && quadrant_cosine(66) == 406_737);
        assert(913_545int * 913_545 + 406_737int * 406_737 == 999_999_454_194);
    } else if degrees == 25 {
        assert(quadrant_cosine(25) == 906_308 && quadrant_cosine(65) == 422_618);
        assert(906_308int * 906_308 + 422_618int * 422_618 == 1_000_000_164_788);
    } else if degrees == 26 {
        assert(quadrant_cosine(26) == 898_794 && quadrant_cosine(64) == 438_371);
        assert(898_794int * 898_794 + 438_371int * 438_371 == 999_999_788_077);
    } else if degrees == 27 {
        assert(quadrant_cosine(27) == 891_007 && quadrant_cosine(63) == 453_990);
        assert(891_007int * 891_007 + 453_990int * 453_990 == 1_000_000_394_149);
    } else if degrees == 28 {
        assert(quadrant_cosine(28) == 882_948 && quadrant_cosine(62) == 469_472);
        assert(882_948int * 882_948 + 469_472int * 469_472 == 1_000_001_129_488);
    } else if degrees == 29 {
        assert(quadrant_cosine(29) == 874_620 && quadrant_cosine(61) == 484_810);
        assert(874_620int * 874_620 + 484_810int * 484_810 == 1_000_000_880_500);
    } else if degrees == 30 {
        assert(quadrant_cosine(30) == 866_025 && quadrant_cosine(60) == 500_000);
        assert(866_025int * 866_025 + 500_000int * 500_000 == 999_999_300_625);
    } else if degrees == 31 {
        assert(quadrant_cosine(31) == 857_167 && quadrant_cosine(59) == 515_038);
        assert(857_167int * 857_167 + 515_038int * 515_038 == 999_999_407_333);
    } else if degrees == 32 {
        assert(quadrant_cosine(32) == 848_048 && quadrant_cosine(58) == 529_919);
        assert(848_048int * 848_048 + 529_919int * 529_919 == 999_999_556_865);
    } else if degrees == 33 {
        assert(quadrant_cosine(33) == 838_671 && quadrant_cosine(57) == 544_639);
        assert(838_671int * 838_671 + 544_639int * 544_639 == 1_000_000_686_562);
    } else if degrees == 34 {
        assert(quadrant_cosine(34) == 829_038 && quadrant_cosine(56) == 559_193);
        assert(829_038int * 829_038 + 559_193int * 559_193 == 1_000_000_816_693);
    } else if degrees == 35 {
        assert(quadrant_cosine(35) == 819_152 && quadrant_cosine(55) == 573_576);
        assert(819_152int * 819_152 + 573_576int * 573_576 == 999_999_426_880);
    } else if degrees == 36 {
        assert(quadrant_cosine(36) == 809_017 && quadrant_cosine(54) == 587_785);
        assert(809_017int * 809_017 + 587_785int * 587_785 == 999_999_712_514);
    } else if degrees == 37 {
        assert(quadrant_cosine(37) == 798_636 && quadrant_cosine(53) == 601_815);
        assert(798_636int * 798_636 + 601_815int * 601_815 == 1_000_000_754_721);
    } else if degrees == 38 {
        assert(quadrant_cosine(38) == 788_011 && quadrant_cosine(52) == 615_661);
        assert(788_011int * 788_011 + 615_661int * 615_661 == 999_999_803_042);
    } else if degrees == 39 {
        assert(quadrant_cosine(39) == 777_146 && quadrant_cosine(51) == 629_320);
        assert(777_146int * 777_146 + 629_320int * 629_320 == 999_999_567_716);
    } else if degrees == 40 {
        assert(quadrant_cosine(40) == 766_044 && quadrant_cosine(50) == 642_788);
        assert(766_044int * 766_044 + 642_788int * 642_788 == 999_999_822_880);
    } else if degrees == 41 {
        assert(quadrant_cosine(41) == 754_710 && quadrant_cosine(49) == 656_059);
        assert(754_710int * 754_710 + 656_059int * 656_059 == 1_000_000_595_581);
    } else if degrees == 42 {
        assert(quadrant_cosine(42) == 743_145 && quadrant_cosine(48) == 669_131);
        assert(743_145int * 743_145 + 669_131int * 669_131 == 1_000_000_786_186);
    } else if degrees == 43 {
        assert(quadrant_cosine(43) == 731_354 && quadrant_cosine(47) == 681_998);
        assert(731_354int * 731_354 + 681_998int * 681_998 == 999_999_945_320);
    } else if degrees == 44 {
        assert(quadrant_cosine(44) == 719_340 && quadrant_cosine(46) == 694_658);
        assert(719_340int * 719_340 + 694_658int * 694_658 == 999_999_772_564);
    } else if degrees == 45 {
        assert(quadrant_cosine(45) == 707_107 && quadrant_cosine(45) == 707_107);
        assert(707_107int * 707_107 + 707_107int * 707_107 == 1_000_000_618_898);
    } else if degrees == 46 {
        assert(quadrant_cosine(46) == 694_658 && quadrant_cosine(44) == 719_340);
        assert(694_658int * 694_658 + 719_340int * 719_340 == 999_999_772_564);
    } else if degrees == 47 {
        assert(quadrant_cosine(47) == 681_998 && quadrant_cosine(43) == 731_354);
        assert(681_998int * 681_998 + 731_354int * 731_354 == 999_999_945_320);
    } else if degrees == 48 {
        assert(quadrant_cosine(48) == 669_131 && quadrant_cosine(42) == 743_145);
        assert(669_131int * 669_131 + 743_145int * 743_145 == 1_000_000_786_186);
    } else if degrees == 49 {
        assert(quadrant_cosine(49) == 656_059 && quadrant_cosine(41) == 754_710);
        assert(656_059int * 656_059 + 754_710int * 754_710 == 1_000_000_595_581);
    } else if degrees == 50 {
        assert(quadrant_cosine(50) == 642_788 && quadrant_cosine(40) == 766_044);
        assert(642_788int * 642_788 + 766_044int * 766_044 == 999_999_822_880);
    } else if degrees == 51 {
        assert(quadrant_cosine(51) == 629_320 && quadrant_cosine(39) == 777_146);
        assert(629_320int * 629_320 + 777_146int * 777_146 == 999_999_567_716);
    } else if degrees == 52 {
        assert(quadrant_cosine(52) == 615_661 && quadrant_cosine(38) == 788_011);
        assert(615_661int * 615_661 + 788_011int * 788_011 == 999_999_803_042);
    } else if degrees == 53 {
        assert(quadrant_cosine(53) == 601_815 && quadrant_cosine(37) == 798_636);
        assert(601_815int * 601_815 + 798_636int * 798_636 == 1_000_000_754_721);
    } else if degrees == 54 {
        assert(quadrant_cosine(54) == 587_785 && quadrant_cosine(36) == 809_017);
        assert(587_785int * 587_785 + 809_017int * 809_017 == 999_999_712_514);
    } else if degrees == 55 {
        assert(quadrant_cosine(55) == 573_576 && quadrant_cosine(35) == 819_152);
        assert(573_576int * 573_576 + 819_152int * 819_152 == 999_999_426_880);
    } else if degrees == 56 {
        assert(quadrant_cosine(56) == 559_193 && quadrant_cosine(34) == 829_038);
        assert(559_193int * 559_193 + 829_038int * 829_038 == 1_000_000_816_693);
    } else if degrees == 57 {
        assert(quadrant_cosine(57) == 544_639 && quadrant_cosine(33) == 838_671);
        assert(544_639int * 544_639 + 838_671int * 838_671 == 1_000_000_686_562);
    } else if degrees == 58 {
        assert(quadrant_cosine(58) == 529_919 && quadrant_cosine(32) == 848_048);
        assert(529_919int * 529_919 + 848_048int * 848_048 == 999_999_556_865);
    } else if degrees == 59 {
        assert(quadrant_cosine(59) == 515_038 && quadrant_cosine(31) == 857_167);
        assert(515_038int * 515_038 + 857_167int * 857_167 == 999_999_407_333);
    } else if degrees == 60 {
        assert(quadrant_cosine(60) == 500_000 && quadrant_cosine(30) == 866_025);
        assert(500_000int * 500_000 + 866_025int * 866_025 == 999_999_300_625);
    } else if degrees == 61 {
        assert(quadrant_cosine(61) == 484_810 && quadrant_cosine(29) == 874_620);
        assert(484_810int * 484_810 + 874_620int * 874_620 == 1_000_000_880_500);
    } else if degrees == 62 {
        assert(quadrant_cosine(62) == 469_472 && quadrant_cosine(28) == 882_948);
        assert(469_472int * 469_472 + 882_948int * 882_948 == 1_000_001_129_488);
    } else if degrees == 63 {
        assert(quadrant_cosine(63) == 453_990 && quadrant_cosine(27) == 891_007);
        assert(453_990int * 453_990 + 891_007int * 891_007 == 1_000_000_394_149);
    } else if degrees == 64 {
        assert(quadrant_cosine(64) == 438_371 && quadrant_cosine(26) == 898_794);
        assert(438_371int * 438_371 + 898_794int * 898_794 == 999_999_788_077);
    } else if degrees == 65 {
        assert(quadrant_cosine(65) == 422_618 && quadrant_cosine(25) == 906_308);
        assert(422_618int * 422_618 + 906_308int * 906_308 == 1_000_000_164_788);
    } else if degrees == 66 {
        assert(quadrant_cosine(66) == 406_737 && quadrant_cosine(24) == 913_545);
        assert(406_737int * 406_737 + 913_545int * 913_545 == 999_999_454_194);
    } else if degrees == 67 {
        assert(quadrant_cosine(67) == 390_731 && quadrant_cosine(23) == 920_505);
        assert(390_731int * 390_731 + 920_505int * 920_505 == 1_000_000_169_386);
    } else if degrees == 68 {
        assert(quadrant_cosine(68) == 374_607 && quadrant_cosine(22) == 927_184);
        assert(374_607int * 374_607 + 927_184int * 927_184 == 1_000_000_574_305);
    } else if degrees == 69 {
        assert(quadrant_cosine(69) == 358_368 && quadrant_cosine(21) == 933_580);
        assert(358_368int * 358_368 + 933_580int * 933_580 == 999_999_239_824);
    } else if degrees == 70 {
        assert(quadrant_cosine(70) == 342_020 && quadrant_cosine(20) == 939_693);
        assert(342_020int * 342_020 + 939_693int * 939_693 == 1_000_000_614_649);
    } else if degrees == 71 {
        assert(quadrant_cosine(71) == 325_568 && quadrant_cosine(19) == 945_519);
        assert(325_568int * 325_568 + 945_519int * 945_519 == 1_000_000_701_985);
    } else if degrees == 72 {
        assert(quadrant_cosine(72) == 309_017 && quadrant_cosine(18) == 951_057);
        assert(309_017int * 309_017 + 951_057int * 951_057 == 1_000_000_923_538);
    } else if degrees == 73 {
        assert(quadrant_cosine(73) == 292_372 && quadrant_cosine(17) == 956_305);
        assert(292_372int * 292_372 + 956_305int * 956_305 == 1_000_000_639_409);
    } else if degrees == 74 {
        assert(quadrant_cosine(74) == 275_637 && quadrant_cosine(16) == 961_262);
        assert(275_637int * 275_637 + 961_262int * 961_262 == 1_000_000_388_413);
    } else if degrees == 75 {
        assert(quadrant_cosine(75) == 258_819 && quadrant_cosine(15) == 965_926);
        assert(258_819int * 258_819 + 965_926int * 965_926 == 1_000_000_312_237);
    } else if degrees == 76 {
        assert(quadrant_cosine(76) == 241_922 && quadrant_cosine(14) == 970_296);
        assert(241_922int * 241_922 + 970_296int * 970_296 == 1_000_000_581_700);
    } else if degrees == 77 {
        assert(quadrant_cosine(77) == 224_951 && quadrant_cosine(13) == 974_370);
        assert(224_951int * 224_951 + 974_370int * 974_370 == 999_999_849_301);
    } else if degrees == 78 {
        assert(quadrant_cosine(78) == 207_912 && quadrant_cosine(12) == 978_148);
        assert(207_912int * 207_912 + 978_148int * 978_148 == 1_000_000_909_648);
    } else if degrees == 79 {
        assert(quadrant_cosine(79) == 190_809 && quadrant_cosine(11) == 981_627);
        assert(190_809int * 190_809 + 981_627int * 981_627 == 999_999_641_610);
    } else if degrees == 80 {
        assert(quadrant_cosine(80) == 173_648 && quadrant_cosine(10) == 984_808);
        assert(173_648int * 173_648 + 984_808int * 984_808 == 1_000_000_424_768);
    } else if degrees == 81 {
        assert(quadrant_cosine(81) == 156_434 && quadrant_cosine(9) == 987_688);
        assert(156_434int * 156_434 + 987_688int * 987_688 == 999_999_181_700);
    } else if degrees == 82 {
        assert(quadrant_cosine(82) == 139_173 && quadrant_cosine(8) == 990_268);
        assert(139_173int * 139_173 + 990_268int * 990_268 == 999_999_835_753);
    } else if degrees == 83 {
        assert(quadrant_cosine(83) == 121_869 && quadrant_cosine(7) == 992_546);
        assert(121_869int * 121_869 + 992_546int * 992_546 == 999_999_615_277);
    } else if degrees == 84 {
        assert(quadrant_cosine(84) == 104_528 && quadrant_cosine(6) == 994_522);
        assert(104_528int * 104_528 + 994_522int * 994_522 == 1_000_000_111_268);
    } else if degrees == 85 {
        assert(quadrant_cosine(85) == 87_156 && quadrant_cosine(5) == 996_195);
        assert(87_156int * 87_156 + 996_195int * 996_195 == 1_000_000_646_361);
    } else if degrees == 86 {
        assert(quadrant_cosine(86) == 69_756 && quadrant_cosine(4) == 997_564);
        assert(69_756int * 69_756 + 997_564int * 997_564 == 999_999_833_632);
    } else if degrees == 87 {
        assert(quadrant_cosine(87) == 52_336 && quadrant_cosine(3) == 998_630);
        assert(52_336int * 52_336 + 998_630int * 998_630 == 1_000_000_933_796);
    } else if degrees == 88 {
        assert(quadrant_cosine(88) == 34_899 && quadrant_cosine(2) == 999_391);
        assert(34_899int * 34_899 + 999_391int * 999_391 == 1_000_000_311_082);
    } else if degrees == 89 {
        assert(quadrant_cosine(89) == 17_452 && quadrant_cosine(1) == 999_848);
        assert(17_452int * 17_452 + 999_848int * 999_848 == 1_000_000_595_408);
    } else if degrees == 90 {
        assert(quadrant_cosine(90) == 0 && quadrant_cosine(0) == 1_000_000);
        assert(0int * 0 + 1_000_000int * 1_000_000 == 1_000_000_000_000);
    }
}

/// The squares of cosine and sine add up to 1, give or take two millionths.
pub proof fn lemma_unit_circle(degrees: int)
    requires
        0 <= degrees < 360,
    ensures
        -2_000_000 <= cosine(degrees) * cosine(degrees) + sine(degrees) * sine(degrees)
            - 1_000_000_000_000 <= 2_000_000,
        -1_000_000 <= cosine(degrees) <= 1_000_000,
        -1_000_000 <= sine(degrees) <= 1_000_000,
{
    let a = if degrees < 90 {
        degrees
    } else if degrees <= 180 {
        180 - degrees
    } else if degrees <= 270 {
        degrees - 180
    } else {
        360 - degrees
    };
    lemma_unit_quadrant(a);
    let c = quadrant_cosine(a);
    let s = quadrant_cosine(90 - a);
    assert((-c) * (-c) == c * c) by (nonlinear_arith);
    assert((-s) * (-s) == s * s) by (nonlinear_arith);
    assert(cosine(degrees) == c || cosine(degrees) == -c);
    assert(sine(degrees) == s || sine(degrees) == -s);
    lemma_quadrant_range(a);
    lemma_quadrant_range(90 - a);
}

proof fn lemma_quadrant_range(degrees: int)
    ensures
        0 <= quadrant_cosine(degrees) <= 1_000_000,
{
}

/// The cosine of an angle of whole degrees.
pub fn cosine_of(degrees: u32) -> (c: i64)
    requires
        degrees < 360,
    ensures
        c == cosine(degrees as int),
        -UNIT <= c <= UNIT,
{
    if degrees <= 90 {
        quadrant_cosine_of(degrees)
    } else if degrees <= 180 {
        -quadrant_cosine_of(180 - degrees)
    } else if degrees <= 270 {
        -quadrant_cosine_of(degrees - 180)
    } else {
        quadrant_cosine_of(360 - degrees)
    }
}

/// The sine of an angle of whole degrees.
pub fn sine_of(degrees: u32) -> (s: i64)
    requires
        degrees < 360,
    ensures
        s == sine(degrees as int),
        -UNIT <= s <= UNIT,
{
    if degrees >= 90 {
        cosine_of(degrees - 90)
    } else {
        cosine_of(degrees + 270)
    }
}

impl Rotation {
    /// The rotation by a whole number of degrees.
    pub fn of_degrees(degrees: u32) -> (r: Rotation)
        requires
            degrees < 360,
        ensures
            r.wf(),
            r == (Rotation {
                degrees: (degrees * UNIT) as i64,
                cos: cosine(degrees as int) as i64,
                sin: sine(degrees as int) as i64,
            }),
    {
        proof {
            lemma_unit_circle(degrees as int);
        }
        Rotation { degrees: degrees as i64 * UNIT, cos: cosine_of(degrees), sin: sine_of(degrees) }
    }
}

} // verus!
