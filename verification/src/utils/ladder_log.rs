//! The binary logarithms of the multipliers of the ladder, and with them
//! the binary logarithm of every ratio that the ladder computes.
//!
//! The logarithm of each multiplier is computed once, to twenty fractional
//! bits, round by round. A ratio is a product of multipliers, floored, so
//! its logarithm is the sum of theirs, up to what the floors and the
//! roundings cost.
use crate::utils::arith::{lemma_div_at_least, lemma_div_bounds};
use crate::utils::ladder::{
    ladder_fold, ladder_len, ladder_multiplier, ladder_ratio, ladder_span, ladder_step,
    lemma_ratio_bounds, q64,
};
use crate::utils::log_bounds::{
    fraction_bits, grown_error, lemma_fraction_bits_unfold, lemma_log2_bits_bracket,
    lemma_log2_bits_lifted, lemma_log2_x64_in_bits, lemma_repeated_square_monotone,
    lemma_repeated_square_nearby, lemma_repeated_square_of_product,
    lemma_repeated_square_of_two_to, lemma_repeated_square_sign, lemma_two_to_adds,
    lemma_two_to_order, log2_bits, repeated_square, two_to,
};
use crate::utils::math::{
    floor_log2, lemma_floor_log2_unique, log2_mantissa, log2_x64, LOG_BASE,
};
use vstd::arithmetic::power2::{lemma2_to64, lemma2_to64_rest, lemma_pow2_pos, lemma_pow2_unfold};
use vstd::prelude::*;

verus! {

/// One round of the logarithm of a mantissa, checked on given numbers: the
/// next mantissa is `next`, and the fractional bits are the bit of this
/// round before the bits of the rounds that follow.
pub proof fn lemma_fraction_round(r: int, n: nat, next: int, next_bits: int, bits: int)
    requires
        n >= 1,
        next == (if r * r / 0x8000_0000_0000_0000 >= 0x1_0000_0000_0000_0000 {
            r * r / 0x8000_0000_0000_0000 / 2
        } else {
            r * r / 0x8000_0000_0000_0000
        }),
        fraction_bits(next, (n - 1) as nat) == next_bits,
        bits == next_bits + (if r * r / 0x8000_0000_0000_0000 >= 0x1_0000_0000_0000_0000 {
            two_to(n - 1)
        } else {
            0
        }),
    ensures
        fraction_bits(r, n) == bits,
{
    lemma_fraction_bits_unfold(r, n);
}

/// A number whose highest set bit is bit 63 is its own mantissa.
proof fn lemma_mantissa_of_normal(x: int)
    requires
        floor_log2(x) == 63,
    ensures
        log2_mantissa(x) == x,
{
    lemma2_to64();
    let one = two_to(0);
    assert(x / one == x) by (nonlinear_arith)
        requires
            one == 1,
    ;
}

/// The logarithm of the multiplier of bit 0, to twenty fractional bits.
proof fn lemma_multiplier_log_0()
    ensures
        log2_bits(18445821805675392311, 20) == 67108788,
{
    lemma2_to64();
    lemma2_to64_rest();
    lemma_fraction_round(10467175265249768400, 1, 11878709608120476975, 0, 0);
    lemma_fraction_round(9825612024009633397, 2, 10467175265249768400, 0, 0);
    lemma_fraction_round(13462932458215372680, 3, 9825612024009633397, 0, 4);
    lemma_fraction_round(11143322429561490339, 4, 13462932458215372680, 4, 4);
    lemma_fraction_round(14337294618893347703, 5, 11143322429561490339, 4, 20);
    lemma_fraction_round(16262730537769440215, 6, 14337294618893347703, 20, 52);
    lemma_fraction_round(12247334978882829811, 7, 16262730537769440215, 52, 52);
    lemma_fraction_round(15030750278693427129, 8, 12247334978882829811, 52, 180);
    lemma_fraction_round(16651378430235022685, 9, 15030750278693427129, 180, 436);
    lemma_fraction_round(17526086738831146193, 10, 16651378430235022685, 436, 948);
    lemma_fraction_round(17980523815641551219, 11, 17526086738831146193, 948, 1972);
    lemma_fraction_round(18212142134806087642, 12, 17980523815641551219, 1972, 4020);
    lemma_fraction_round(18329067761203520061, 13, 18212142134806087642, 4020, 8116);
    lemma_fraction_round(18387811781193591299, 14, 18329067761203520061, 8116, 16308);
    lemma_fraction_round(18417254355718160487, 15, 18387811781193591299, 16308, 32692);
    lemma_fraction_round(18431993317065449805, 16, 18417254355718160487, 32692, 65460);
    lemma_fraction_round(18439367220385604832, 17, 18431993317065449805, 65460, 130996);
    lemma_fraction_round(18443055278223354160, 18, 18439367220385604832, 130996, 262068);
    lemma_fraction_round(18444899583751176497, 19, 18443055278223354160, 262068, 524212);
    lemma_fraction_round(18445821805675392311, 20, 18444899583751176497, 524212, 1048500);
    lemma_floor_log2_unique(18445821805675392311, 63);
    lemma_mantissa_of_normal(18445821805675392311);
    assert(log2_mantissa(18445821805675392311) == 18445821805675392311);
}

/// The logarithm of the multiplier of bit 1, to twenty fractional bits.
proof fn lemma_multiplier_log_1()
    ensures
        log2_bits(18444899583751176498, 20) == 67108712,
{
    lemma2_to64();
    lemma2_to64_rest();
    lemma_fraction_round(11878709608120815652, 1, 15298498357242780037, 0, 0);
    lemma_fraction_round(10467175265249917616, 2, 11878709608120815652, 0, 0);
    lemma_fraction_round(9825612024009703432, 3, 10467175265249917616, 0, 0);
    lemma_fraction_round(13462932458215420661, 4, 9825612024009703432, 0, 8);
    lemma_fraction_round(11143322429561510196, 5, 13462932458215420661, 8, 8);
    lemma_fraction_round(14337294618893360477, 6, 11143322429561510196, 8, 40);
    lemma_fraction_round(16262730537769447460, 7, 14337294618893360477, 40, 104);
    lemma_fraction_round(12247334978882832539, 8, 16262730537769447460, 104, 104);
    lemma_fraction_round(15030750278693428803, 9, 12247334978882832539, 104, 360);
    lemma_fraction_round(16651378430235023612, 10, 15030750278693428803, 360, 872);
    lemma_fraction_round(17526086738831146681, 11, 16651378430235023612, 872, 1896);
    lemma_fraction_round(17980523815641551469, 12, 17526086738831146681, 1896, 3944);
    lemma_fraction_round(18212142134806087769, 13, 17980523815641551469, 3944, 8040);
    lemma_fraction_round(18329067761203520125, 14, 18212142134806087769, 8040, 16232);
    lemma_fraction_round(18387811781193591331, 15, 18329067761203520125, 16232, 32616);
    lemma_fraction_round(18417254355718160503, 16, 18387811781193591331, 32616, 65384);
    lemma_fraction_round(18431993317065449813, 17, 18417254355718160503, 65384, 130920);
    lemma_fraction_round(18439367220385604836, 18, 18431993317065449813, 130920, 261992);
    lemma_fraction_round(18443055278223354162, 19, 18439367220385604836, 261992, 524136);
    lemma_fraction_round(18444899583751176498, 20, 18443055278223354162, 524136, 1048424);
    lemma_floor_log2_unique(18444899583751176498, 63);
    lemma_mantissa_of_normal(18444899583751176498);
    assert(log2_mantissa(18444899583751176498) == 18444899583751176498);
}

/// The logarithm of the multiplier of bit 2, to twenty fractional bits.
proof fn lemma_multiplier_log_2()
    ensures
        log2_bits(18443055278223354162, 20) == 67108561,
{
    lemma2_to64();
    lemma2_to64_rest();
    lemma_fraction_round(15298498357242780037, 1, 12687553481056936728, 0, 1);
    lemma_fraction_round(11878709608120815652, 2, 15298498357242780037, 1, 1);
    lemma_fraction_round(10467175265249917616, 3, 11878709608120815652, 1, 1);
    lemma_fraction_round(9825612024009703432, 4, 10467175265249917616, 1, 1);
    lemma_fraction_round(13462932458215420661, 5, 9825612024009703432, 1, 17);
    lemma_fraction_round(11143322429561510196, 6, 13462932458215420661, 17, 17);
    lemma_fraction_round(14337294618893360477, 7, 11143322429561510196, 17, 81);
    lemma_fraction_round(16262730537769447460, 8, 14337294618893360477, 81, 209);
    lemma_fraction_round(12247334978882832539, 9, 16262730537769447460, 209, 209);
    lemma_fraction_round(15030750278693428803, 10, 12247334978882832539, 209, 721);
    lemma_fraction_round(16651378430235023612, 11, 15030750278693428803, 721, 1745);
    lemma_fraction_round(17526086738831146681, 12, 16651378430235023612, 1745, 3793);
    lemma_fraction_round(17980523815641551469, 13, 17526086738831146681, 3793, 7889);
    lemma_fraction_round(18212142134806087769, 14, 17980523815641551469, 7889, 16081);
    lemma_fraction_round(18329067761203520125, 15, 18212142134806087769, 16081, 32465);
    lemma_fraction_round(18387811781193591331, 16, 18329067761203520125, 32465, 65233);
    lemma_fraction_round(18417254355718160503, 17, 18387811781193591331, 65233, 130769);
    lemma_fraction_round(18431993317065449813, 18, 18417254355718160503, 130769, 261841);
    lemma_fraction_round(18439367220385604836, 19, 18431993317065449813, 261841, 523985);
    lemma_fraction_round(18443055278223354162, 20, 18439367220385604836, 523985, 1048273);
    lemma_floor_log2_unique(18443055278223354162, 63);
    lemma_mantissa_of_normal(18443055278223354162);
    assert(log2_mantissa(18443055278223354162) == 18443055278223354162);
}

/// The logarithm of the multiplier of bit 3, to twenty fractional bits.
proof fn lemma_multiplier_log_3()
    ensures
        log2_bits(18439367220385604838, 20) == 67108258,
{
    lemma2_to64();
    lemma2_to64_rest();
    lemma_fraction_round(12687553481057658583, 1, 17452837497119046797, 0, 0);
    lemma_fraction_round(15298498357243215239, 2, 12687553481057658583, 0, 2);
    lemma_fraction_round(11878709608120984611, 3, 15298498357243215239, 2, 2);
    lemma_fraction_round(10467175265249992057, 4, 11878709608120984611, 2, 2);
    lemma_fraction_round(9825612024009738371, 5, 10467175265249992057, 2, 2);
    lemma_fraction_round(13462932458215444597, 6, 9825612024009738371, 2, 34);
    lemma_fraction_round(11143322429561520102, 7, 13462932458215444597, 34, 34);
    lemma_fraction_round(14337294618893366850, 8, 11143322429561520102, 34, 162);
    lemma_fraction_round(16262730537769451074, 9, 14337294618893366850, 162, 418);
    lemma_fraction_round(12247334978882833900, 10, 16262730537769451074, 418, 418);
    lemma_fraction_round(15030750278693429638, 11, 12247334978882833900, 418, 1442);
    lemma_fraction_round(16651378430235024075, 12, 15030750278693429638, 1442, 3490);
    lemma_fraction_round(17526086738831146925, 13, 16651378430235024075, 3490, 7586);
    lemma_fraction_round(17980523815641551594, 14, 17526086738831146925, 7586, 15778);
    lemma_fraction_round(18212142134806087832, 15, 17980523815641551594, 15778, 32162);
    lemma_fraction_round(18329067761203520157, 16, 18212142134806087832, 32162, 64930);
    lemma_fraction_round(18387811781193591347, 17, 18329067761203520157, 64930, 130466);
    lemma_fraction_round(18417254355718160511, 18, 18387811781193591347, 130466, 261538);
    lemma_fraction_round(18431993317065449817, 19, 18417254355718160511, 261538, 523682);
    lemma_fraction_round(18439367220385604838, 20, 18431993317065449817, 523682, 1047970);
    lemma_floor_log2_unique(18439367220385604838, 63);
    lemma_mantissa_of_normal(18439367220385604838);
    assert(log2_mantissa(18439367220385604838) == 18439367220385604838);
}

/// The logarithm of the multiplier of bit 4, to twenty fractional bits.
proof fn lemma_multiplier_log_4()
    ensures
        log2_bits(18431993317065449817, 20) == 67107653,
{
    lemma2_to64();
    lemma2_to64_rest();
    lemma_fraction_round(17452837497119046797, 1, 16512482391673943144, 0, 1);
    lemma_fraction_round(12687553481057658583, 2, 17452837497119046797, 1, 1);
    lemma_fraction_round(15298498357243215239, 3, 12687553481057658583, 1, 5);
    lemma_fraction_round(11878709608120984611, 4, 15298498357243215239, 5, 5);
    lemma_fraction_round(10467175265249992057, 5, 11878709608120984611, 5, 5);
    lemma_fraction_round(9825612024009738371, 6, 10467175265249992057, 5, 5);
    lemma_fraction_round(13462932458215444597, 7, 9825612024009738371, 5, 69);
    lemma_fraction_round(11143322429561520102, 8, 13462932458215444597, 69, 69);
    lemma_fraction_round(14337294618893366850, 9, 11143322429561520102, 69, 325);
    lemma_fraction_round(16262730537769451074, 10, 14337294618893366850, 325, 837);
    lemma_fraction_round(12247334978882833900, 11, 16262730537769451074, 837, 837);
    lemma_fraction_round(15030750278693429638, 12, 12247334978882833900, 837, 2885);
    lemma_fraction_round(16651378430235024075, 13, 15030750278693429638, 2885, 6981);
    lemma_fraction_round(17526086738831146925, 14, 16651378430235024075, 6981, 15173);
    lemma_fraction_round(17980523815641551594, 15, 17526086738831146925, 15173, 31557);
    lemma_fraction_round(18212142134806087832, 16, 17980523815641551594, 31557, 64325);
    lemma_fraction_round(18329067761203520157, 17, 18212142134806087832, 64325, 129861);
    lemma_fraction_round(18387811781193591347, 18, 18329067761203520157, 129861, 260933);
    lemma_fraction_round(18417254355718160511, 19, 18387811781193591347, 260933, 523077);
    lemma_fraction_round(18431993317065449817, 20, 18417254355718160511, 523077, 1047365);
    lemma_floor_log2_unique(18431993317065449817, 63);
    lemma_mantissa_of_normal(18431993317065449817);
    assert(log2_mantissa(18431993317065449817) == 18431993317065449817);
}

/// The logarithm of the multiplier of bit 5, to twenty fractional bits.
proof fn lemma_multiplier_log_5()
    ensures
        log2_bits(18417254355718160513, 20) == 67106443,
{
    lemma2_to64();
    lemma2_to64_rest();
    lemma_fraction_round(16512482391674868433, 1, 14781040689124796305, 0, 1);
    lemma_fraction_round(17452837497119535788, 2, 16512482391674868433, 1, 3);
    lemma_fraction_round(12687553481057836322, 3, 17452837497119535788, 3, 3);
    lemma_fraction_round(15298498357243322397, 4, 12687553481057836322, 3, 11);
    lemma_fraction_round(11878709608121026213, 5, 15298498357243322397, 11, 11);
    lemma_fraction_round(10467175265250010386, 6, 11878709608121026213, 11, 11);
    lemma_fraction_round(9825612024009746974, 7, 10467175265250010386, 11, 11);
    lemma_fraction_round(13462932458215450491, 8, 9825612024009746974, 11, 139);
    lemma_fraction_round(11143322429561522541, 9, 13462932458215450491, 139, 139);
    lemma_fraction_round(14337294618893368419, 10, 11143322429561522541, 139, 651);
    lemma_fraction_round(16262730537769451964, 11, 14337294618893368419, 651, 1675);
    lemma_fraction_round(12247334978882834235, 12, 16262730537769451964, 1675, 1675);
    lemma_fraction_round(15030750278693429844, 13, 12247334978882834235, 1675, 5771);
    lemma_fraction_round(16651378430235024189, 14, 15030750278693429844, 5771, 13963);
    lemma_fraction_round(17526086738831146985, 15, 16651378430235024189, 13963, 30347);
    lemma_fraction_round(17980523815641551625, 16, 17526086738831146985, 30347, 63115);
    lemma_fraction_round(18212142134806087848, 17, 17980523815641551625, 63115, 128651);
    lemma_fraction_round(18329067761203520165, 18, 18212142134806087848, 128651, 259723);
    lemma_fraction_round(18387811781193591351, 19, 18329067761203520165, 259723, 521867);
    lemma_fraction_round(18417254355718160513, 20, 18387811781193591351, 521867, 1046155);
    lemma_floor_log2_unique(18417254355718160513, 63);
    lemma_mantissa_of_normal(18417254355718160513);
    assert(log2_mantissa(18417254355718160513) == 18417254355718160513);
}

/// The logarithm of the multiplier of bit 6, to twenty fractional bits.
proof fn lemma_multiplier_log_6()
    ensures
        log2_bits(18387811781193591352, 20) == 67104023,
{
    lemma2_to64();
    lemma2_to64_rest();
    lemma_fraction_round(14781040689125245185, 1, 11843779204643185185, 0, 1);
    lemma_fraction_round(16512482391675119164, 2, 14781040689125245185, 1, 3);
    lemma_fraction_round(17452837497119668293, 3, 16512482391675119164, 3, 7);
    lemma_fraction_round(12687553481057884485, 4, 17452837497119668293, 7, 7);
    lemma_fraction_round(15298498357243351434, 5, 12687553481057884485, 7, 23);
    lemma_fraction_round(11878709608121037486, 6, 15298498357243351434, 23, 23);
    lemma_fraction_round(10467175265250015353, 7, 11878709608121037486, 23, 23);
    lemma_fraction_round(9825612024009749305, 8, 10467175265250015353, 23, 23);
    lemma_fraction_round(13462932458215452088, 9, 9825612024009749305, 23, 279);
    lemma_fraction_round(11143322429561523202, 10, 13462932458215452088, 279, 279);
    lemma_fraction_round(14337294618893368844, 11, 11143322429561523202, 279, 1303);
    lemma_fraction_round(16262730537769452205, 12, 14337294618893368844, 1303, 3351);
    lemma_fraction_round(12247334978882834326, 13, 16262730537769452205, 3351, 3351);
    lemma_fraction_round(15030750278693429900, 14, 12247334978882834326, 3351, 11543);
    lemma_fraction_round(16651378430235024220, 15, 15030750278693429900, 11543, 27927);
    lemma_fraction_round(17526086738831147001, 16, 16651378430235024220, 27927, 60695);
    lemma_fraction_round(17980523815641551633, 17, 17526086738831147001, 60695, 126231);
    lemma_fraction_round(18212142134806087852, 18, 17980523815641551633, 126231, 257303);
    lemma_fraction_round(18329067761203520167, 19, 18212142134806087852, 257303, 519447);
    lemma_fraction_round(18387811781193591352, 20, 18329067761203520167, 519447, 1043735);
    lemma_floor_log2_unique(18387811781193591352, 63);
    lemma_mantissa_of_normal(18387811781193591352);
    assert(log2_mantissa(18387811781193591352) == 18387811781193591352);
}

/// The logarithm of the multiplier of bit 7, to twenty fractional bits.
proof fn lemma_multiplier_log_7()
    ensures
        log2_bits(18329067761203520168, 20) == 67099182,
{
    lemma2_to64();
    lemma2_to64_rest();
    lemma_fraction_round(11843779204643502706, 1, 15208657450641069325, 0, 0);
    lemma_fraction_round(14781040689125443318, 2, 11843779204643502706, 0, 2);
    lemma_fraction_round(16512482391675229835, 3, 14781040689125443318, 2, 6);
    lemma_fraction_round(17452837497119726780, 4, 16512482391675229835, 6, 14);
    lemma_fraction_round(12687553481057905744, 5, 17452837497119726780, 14, 14);
    lemma_fraction_round(15298498357243364251, 6, 12687553481057905744, 14, 46);
    lemma_fraction_round(11878709608121042462, 7, 15298498357243364251, 46, 46);
    lemma_fraction_round(10467175265250017545, 8, 11878709608121042462, 46, 46);
    lemma_fraction_round(9825612024009750334, 9, 10467175265250017545, 46, 46);
    lemma_fraction_round(13462932458215452793, 10, 9825612024009750334, 46, 558);
    lemma_fraction_round(11143322429561523494, 11, 13462932458215452793, 558, 558);
    lemma_fraction_round(14337294618893369032, 12, 11143322429561523494, 558, 2606);
    lemma_fraction_round(16262730537769452312, 13, 14337294618893369032, 2606, 6702);
    lemma_fraction_round(12247334978882834366, 14, 16262730537769452312, 6702, 6702);
    lemma_fraction_round(15030750278693429924, 15, 12247334978882834366, 6702, 23086);
    lemma_fraction_round(16651378430235024233, 16, 15030750278693429924, 23086, 55854);
    lemma_fraction_round(17526086738831147008, 17, 16651378430235024233, 55854, 121390);
    lemma_fraction_round(17980523815641551637, 18, 17526086738831147008, 121390, 252462);
    lemma_fraction_round(18212142134806087854, 19, 17980523815641551637, 252462, 514606);
    lemma_fraction_round(18329067761203520168, 20, 18212142134806087854, 514606, 1038894);
    lemma_floor_log2_unique(18329067761203520168, 63);
    lemma_mantissa_of_normal(18329067761203520168);
    assert(log2_mantissa(18329067761203520168) == 18329067761203520168);
}

/// The logarithm of the multiplier of bit 8, to twenty fractional bits.
proof fn lemma_multiplier_log_8()
    ensures
        log2_bits(18212142134806087854, 20) == 67089501,
{
    lemma2_to64();
    lemma2_to64_rest();
    lemma_fraction_round(15208657450641069325, 1, 12538974928404594888, 0, 1);
    lemma_fraction_round(11843779204643502706, 2, 15208657450641069325, 1, 1);
    lemma_fraction_round(14781040689125443318, 3, 11843779204643502706, 1, 5);
    lemma_fraction_round(16512482391675229835, 4, 14781040689125443318, 5, 13);
    lemma_fraction_round(17452837497119726780, 5, 16512482391675229835, 13, 29);
    lemma_fraction_round(12687553481057905744, 6, 17452837497119726780, 29, 29);
    lemma_fraction_round(15298498357243364251, 7, 12687553481057905744, 29, 93);
    lemma_fraction_round(11878709608121042462, 8, 15298498357243364251, 93, 93);
    lemma_fraction_round(10467175265250017545, 9, 11878709608121042462, 93, 93);
    lemma_fraction_round(9825612024009750334, 10, 10467175265250017545, 93, 93);
    lemma_fraction_round(13462932458215452793, 11, 9825612024009750334, 93, 1117);
    lemma_fraction_round(11143322429561523494, 12, 13462932458215452793, 1117, 1117);
    lemma_fraction_round(14337294618893369032, 13, 11143322429561523494, 1117, 5213);
    lemma_fraction_round(16262730537769452312, 14, 14337294618893369032, 5213, 13405);
    lemma_fraction_round(12247334978882834366, 15, 16262730537769452312, 13405, 13405);
    lemma_fraction_round(15030750278693429924, 16, 12247334978882834366, 13405, 46173);
    lemma_fraction_round(16651378430235024233, 17, 15030750278693429924, 46173, 111709);
    lemma_fraction_round(17526086738831147008, 18, 16651378430235024233, 111709, 242781);
    lemma_fraction_round(17980523815641551637, 19, 17526086738831147008, 242781, 504925);
    lemma_fraction_round(18212142134806087854, 20, 17980523815641551637, 504925, 1029213);
    lemma_floor_log2_unique(18212142134806087854, 63);
    lemma_mantissa_of_normal(18212142134806087854);
    assert(log2_mantissa(18212142134806087854) == 18212142134806087854);
}

/// The logarithm of the multiplier of bit 9, to twenty fractional bits.
proof fn lemma_multiplier_log_9()
    ensures
        log2_bits(17980523815641551639, 20) == 67070138,
{
    lemma2_to64();
    lemma2_to64_rest();
    lemma_fraction_round(12538974928405333155, 1, 17046465395403532379, 0, 0);
    lemma_fraction_round(15208657450641517051, 2, 12538974928405333155, 0, 2);
    lemma_fraction_round(11843779204643677040, 3, 15208657450641517051, 2, 2);
    lemma_fraction_round(14781040689125552103, 4, 11843779204643677040, 2, 10);
    lemma_fraction_round(16512482391675290599, 5, 14781040689125552103, 10, 26);
    lemma_fraction_round(17452837497119758892, 6, 16512482391675290599, 26, 58);
    lemma_fraction_round(12687553481057917416, 7, 17452837497119758892, 58, 58);
    lemma_fraction_round(15298498357243371288, 8, 12687553481057917416, 58, 186);
    lemma_fraction_round(11878709608121045194, 9, 15298498357243371288, 186, 186);
    lemma_fraction_round(10467175265250018749, 10, 11878709608121045194, 186, 186);
    lemma_fraction_round(9825612024009750899, 11, 10467175265250018749, 186, 186);
    lemma_fraction_round(13462932458215453180, 12, 9825612024009750899, 186, 2234);
    lemma_fraction_round(11143322429561523654, 13, 13462932458215453180, 2234, 2234);
    lemma_fraction_round(14337294618893369135, 14, 11143322429561523654, 2234, 10426);
    lemma_fraction_round(16262730537769452370, 15, 14337294618893369135, 10426, 26810);
    lemma_fraction_round(12247334978882834388, 16, 16262730537769452370, 26810, 26810);
    lemma_fraction_round(15030750278693429938, 17, 12247334978882834388, 26810, 92346);
    lemma_fraction_round(16651378430235024241, 18, 15030750278693429938, 92346, 223418);
    lemma_fraction_round(17526086738831147012, 19, 16651378430235024241, 223418, 485562);
    lemma_fraction_round(17980523815641551639, 20, 17526086738831147012, 485562, 1009850);
    lemma_floor_log2_unique(17980523815641551639, 63);
    lemma_mantissa_of_normal(17980523815641551639);
    assert(log2_mantissa(17980523815641551639) == 17980523815641551639);
}

/// The logarithm of the multiplier of bit 10, to twenty fractional bits.
proof fn lemma_multiplier_log_10()
    ensures
        log2_bits(17526086738831147013, 20) == 67031413,
{
    lemma2_to64();
    lemma2_to64_rest();
    lemma_fraction_round(17046465395404186237, 1, 15752480834319818190, 0, 1);
    lemma_fraction_round(12538974928405573636, 2, 17046465395404186237, 1, 1);
    lemma_fraction_round(15208657450641662892, 3, 12538974928405573636, 1, 5);
    lemma_fraction_round(11843779204643733827, 4, 15208657450641662892, 5, 5);
    lemma_fraction_round(14781040689125587538, 5, 11843779204643733827, 5, 21);
    lemma_fraction_round(16512482391675310392, 6, 14781040689125587538, 21, 53);
    lemma_fraction_round(17452837497119769352, 7, 16512482391675310392, 53, 117);
    lemma_fraction_round(12687553481057921218, 8, 17452837497119769352, 117, 117);
    lemma_fraction_round(15298498357243373580, 9, 12687553481057921218, 117, 373);
    lemma_fraction_round(11878709608121046084, 10, 15298498357243373580, 373, 373);
    lemma_fraction_round(10467175265250019141, 11, 11878709608121046084, 373, 373);
    lemma_fraction_round(9825612024009751083, 12, 10467175265250019141, 373, 373);
    lemma_fraction_round(13462932458215453306, 13, 9825612024009751083, 373, 4469);
    lemma_fraction_round(11143322429561523706, 14, 13462932458215453306, 4469, 4469);
    lemma_fraction_round(14337294618893369168, 15, 11143322429561523706, 4469, 20853);
    lemma_fraction_round(16262730537769452389, 16, 14337294618893369168, 20853, 53621);
    lemma_fraction_round(12247334978882834395, 17, 16262730537769452389, 53621, 53621);
    lemma_fraction_round(15030750278693429942, 18, 12247334978882834395, 53621, 184693);
    lemma_fraction_round(16651378430235024243, 19, 15030750278693429942, 184693, 446837);
    lemma_fraction_round(17526086738831147013, 20, 16651378430235024243, 446837, 971125);
    lemma_floor_log2_unique(17526086738831147013, 63);
    lemma_mantissa_of_normal(17526086738831147013);
    assert(log2_mantissa(17526086738831147013) == 17526086738831147013);
}

/// The logarithm of the multiplier of bit 11, to twenty fractional bits.
proof fn lemma_multiplier_log_11()
    ensures
        log2_bits(16651378430235024244, 20) == 66953963,
{
    lemma2_to64();
    lemma2_to64_rest();
    lemma_fraction_round(15752480834320298793, 1, 13451731722633935995, 0, 1);
    lemma_fraction_round(17046465395404446278, 2, 15752480834320298793, 1, 3);
    lemma_fraction_round(12538974928405669276, 3, 17046465395404446278, 3, 3);
    lemma_fraction_round(15208657450641720893, 4, 12538974928405669276, 3, 11);
    lemma_fraction_round(11843779204643756411, 5, 15208657450641720893, 11, 11);
    lemma_fraction_round(14781040689125601630, 6, 11843779204643756411, 11, 43);
    lemma_fraction_round(16512482391675318263, 7, 14781040689125601630, 43, 107);
    lemma_fraction_round(17452837497119773512, 8, 16512482391675318263, 107, 235);
    lemma_fraction_round(12687553481057922730, 9, 17452837497119773512, 235, 235);
    lemma_fraction_round(15298498357243374492, 10, 12687553481057922730, 235, 747);
    lemma_fraction_round(11878709608121046438, 11, 15298498357243374492, 747, 747);
    lemma_fraction_round(10467175265250019297, 12, 11878709608121046438, 747, 747);
    lemma_fraction_round(9825612024009751156, 13, 10467175265250019297, 747, 747);
    lemma_fraction_round(13462932458215453356, 14, 9825612024009751156, 747, 8939);
    lemma_fraction_round(11143322429561523727, 15, 13462932458215453356, 8939, 8939);
    lemma_fraction_round(14337294618893369182, 16, 11143322429561523727, 8939, 41707);
    lemma_fraction_round(16262730537769452397, 17, 14337294618893369182, 41707, 107243);
    lemma_fraction_round(12247334978882834398, 18, 16262730537769452397, 107243, 107243);
    lemma_fraction_round(15030750278693429944, 19, 12247334978882834398, 107243, 369387);
    lemma_fraction_round(16651378430235024244, 20, 15030750278693429944, 369387, 893675);
    lemma_floor_log2_unique(16651378430235024244, 63);
    lemma_mantissa_of_normal(16651378430235024244);
    assert(log2_mantissa(16651378430235024244) == 16651378430235024244);
}

/// The logarithm of the multiplier of bit 12, to twenty fractional bits.
proof fn lemma_multiplier_log_12()
    ensures
        log2_bits(15030750278693429944, 20) == 66799063,
{
    lemma2_to64();
    lemma2_to64_rest();
    lemma_fraction_round(13451731722633935995, 1, 9809269625830948450, 0, 1);
    lemma_fraction_round(15752480834320298793, 2, 13451731722633935995, 1, 3);
    lemma_fraction_round(17046465395404446278, 3, 15752480834320298793, 3, 7);
    lemma_fraction_round(12538974928405669276, 4, 17046465395404446278, 7, 7);
    lemma_fraction_round(15208657450641720893, 5, 12538974928405669276, 7, 23);
    lemma_fraction_round(11843779204643756411, 6, 15208657450641720893, 23, 23);
    lemma_fraction_round(14781040689125601630, 7, 11843779204643756411, 23, 87);
    lemma_fraction_round(16512482391675318263, 8, 14781040689125601630, 87, 215);
    lemma_fraction_round(17452837497119773512, 9, 16512482391675318263, 215, 471);
    lemma_fraction_round(12687553481057922730, 10, 17452837497119773512, 471, 471);
    lemma_fraction_round(15298498357243374492, 11, 12687553481057922730, 471, 1495);
    lemma_fraction_round(11878709608121046438, 12, 15298498357243374492, 1495, 1495);
    lemma_fraction_round(10467175265250019297, 13, 11878709608121046438, 1495, 1495);
    lemma_fraction_round(9825612024009751156, 14, 10467175265250019297, 1495, 1495);
    lemma_fraction_round(13462932458215453356, 15, 9825612024009751156, 1495, 17879);
    lemma_fraction_round(11143322429561523727, 16, 13462932458215453356, 17879, 17879);
    lemma_fraction_round(14337294618893369182, 17, 11143322429561523727, 17879, 83415);
    lemma_fraction_round(16262730537769452397, 18, 14337294618893369182, 83415, 214487);
    lemma_fraction_round(12247334978882834398, 19, 16262730537769452397, 214487, 214487);
    lemma_fraction_round(15030750278693429944, 20, 12247334978882834398, 214487, 738775);
    lemma_floor_log2_unique(15030750278693429944, 63);
    lemma_mantissa_of_normal(15030750278693429944);
    assert(log2_mantissa(15030750278693429944) == 15030750278693429944);
}

/// The logarithm of the multiplier of bit 13, to twenty fractional bits.
proof fn lemma_multiplier_log_13()
    ensures
        log2_bits(12247334978882834399, 20) == 66489262,
{
    lemma2_to64();
    lemma2_to64_rest();
    lemma_fraction_round(9809269625831341041, 1, 10432385271652722793, 0, 0);
    lemma_fraction_round(13451731722634205180, 2, 9809269625831341041, 0, 2);
    lemma_fraction_round(15752480834320456406, 3, 13451731722634205180, 2, 6);
    lemma_fraction_round(17046465395404531558, 4, 15752480834320456406, 6, 14);
    lemma_fraction_round(12538974928405700641, 5, 17046465395404531558, 14, 14);
    lemma_fraction_round(15208657450641739915, 6, 12538974928405700641, 14, 46);
    lemma_fraction_round(11843779204643763818, 7, 15208657450641739915, 46, 46);
    lemma_fraction_round(14781040689125606252, 8, 11843779204643763818, 46, 174);
    lemma_fraction_round(16512482391675320845, 9, 14781040689125606252, 174, 430);
    lemma_fraction_round(17452837497119774876, 10, 16512482391675320845, 430, 942);
    lemma_fraction_round(12687553481057923226, 11, 17452837497119774876, 942, 942);
    lemma_fraction_round(15298498357243374791, 12, 12687553481057923226, 942, 2990);
    lemma_fraction_round(11878709608121046554, 13, 15298498357243374791, 2990, 2990);
    lemma_fraction_round(10467175265250019348, 14, 11878709608121046554, 2990, 2990);
    lemma_fraction_round(9825612024009751180, 15, 10467175265250019348, 2990, 2990);
    lemma_fraction_round(13462932458215453373, 16, 9825612024009751180, 2990, 35758);
    lemma_fraction_round(11143322429561523734, 17, 13462932458215453373, 35758, 35758);
    lemma_fraction_round(14337294618893369186, 18, 11143322429561523734, 35758, 166830);
    lemma_fraction_round(16262730537769452399, 19, 14337294618893369186, 166830, 428974);
    lemma_fraction_round(12247334978882834399, 20, 16262730537769452399, 428974, 428974);
    lemma_floor_log2_unique(12247334978882834399, 63);
    lemma_mantissa_of_normal(12247334978882834399);
    assert(log2_mantissa(12247334978882834399) == 12247334978882834399);
}

/// The logarithm of the multiplier of bit 14, to twenty fractional bits.
proof fn lemma_multiplier_log_14()
    ensures
        log2_bits(8131365268884726200, 20) == 65869660,
{
    lemma2_to64();
    lemma2_to64_rest();
    lemma_fraction_round(10432385271653098372, 1, 11799877747674347533, 0, 0);
    lemma_fraction_round(9809269625831517614, 2, 10432385271653098372, 0, 0);
    lemma_fraction_round(13451731722634326250, 3, 9809269625831517614, 0, 4);
    lemma_fraction_round(15752480834320527295, 4, 13451731722634326250, 4, 12);
    lemma_fraction_round(17046465395404569914, 5, 15752480834320527295, 12, 28);
    lemma_fraction_round(12538974928405714748, 6, 17046465395404569914, 28, 28);
    lemma_fraction_round(15208657450641748470, 7, 12538974928405714748, 28, 92);
    lemma_fraction_round(11843779204643767149, 8, 15208657450641748470, 92, 92);
    lemma_fraction_round(14781040689125608331, 9, 11843779204643767149, 92, 348);
    lemma_fraction_round(16512482391675322006, 10, 14781040689125608331, 348, 860);
    lemma_fraction_round(17452837497119775490, 11, 16512482391675322006, 860, 1884);
    lemma_fraction_round(12687553481057923449, 12, 17452837497119775490, 1884, 1884);
    lemma_fraction_round(15298498357243374925, 13, 12687553481057923449, 1884, 5980);
    lemma_fraction_round(11878709608121046606, 14, 15298498357243374925, 5980, 5980);
    lemma_fraction_round(10467175265250019371, 15, 11878709608121046606, 5980, 5980);
    lemma_fraction_round(9825612024009751191, 16, 10467175265250019371, 5980, 5980);
    lemma_fraction_round(13462932458215453380, 17, 9825612024009751191, 5980, 71516);
    lemma_fraction_round(11143322429561523737, 18, 13462932458215453380, 71516, 71516);
    lemma_fraction_round(14337294618893369188, 19, 11143322429561523737, 71516, 333660);
    lemma_fraction_round(16262730537769452400, 20, 14337294618893369188, 333660, 857948);
    lemma_floor_log2_unique(8131365268884726200, 62);
    assert(log2_mantissa(8131365268884726200) == 16262730537769452400);
}

/// The logarithm of the multiplier of bit 15, to twenty fractional bits.
proof fn lemma_multiplier_log_15()
    ensures
        log2_bits(3584323654723342297, 20) == 64630456,
{
    lemma2_to64();
    lemma2_to64_rest();
    lemma_fraction_round(11799877747674347533, 1, 15096118242189101721, 0, 0);
    lemma_fraction_round(10432385271653098372, 2, 11799877747674347533, 0, 0);
    lemma_fraction_round(9809269625831517614, 3, 10432385271653098372, 0, 0);
    lemma_fraction_round(13451731722634326250, 4, 9809269625831517614, 0, 8);
    lemma_fraction_round(15752480834320527295, 5, 13451731722634326250, 8, 24);
    lemma_fraction_round(17046465395404569914, 6, 15752480834320527295, 24, 56);
    lemma_fraction_round(12538974928405714748, 7, 17046465395404569914, 56, 56);
    lemma_fraction_round(15208657450641748470, 8, 12538974928405714748, 56, 184);
    lemma_fraction_round(11843779204643767149, 9, 15208657450641748470, 184, 184);
    lemma_fraction_round(14781040689125608331, 10, 11843779204643767149, 184, 696);
    lemma_fraction_round(16512482391675322006, 11, 14781040689125608331, 696, 1720);
    lemma_fraction_round(17452837497119775490, 12, 16512482391675322006, 1720, 3768);
    lemma_fraction_round(12687553481057923449, 13, 17452837497119775490, 3768, 3768);
    lemma_fraction_round(15298498357243374925, 14, 12687553481057923449, 3768, 11960);
    lemma_fraction_round(11878709608121046606, 15, 15298498357243374925, 11960, 11960);
    lemma_fraction_round(10467175265250019371, 16, 11878709608121046606, 11960, 11960);
    lemma_fraction_round(9825612024009751191, 17, 10467175265250019371, 11960, 11960);
    lemma_fraction_round(13462932458215453380, 18, 9825612024009751191, 11960, 143032);
    lemma_fraction_round(11143322429561523737, 19, 13462932458215453380, 143032, 143032);
    lemma_fraction_round(14337294618893369188, 20, 11143322429561523737, 143032, 667320);
    lemma_floor_log2_unique(3584323654723342297, 61);
    assert(log2_mantissa(3584323654723342297) == 14337294618893369188);
}

/// The logarithm of the multiplier of bit 16, to twenty fractional bits.
proof fn lemma_multiplier_log_16()
    ensures
        log2_bits(696457651847595233, 20) == 62152049,
{
    lemma2_to64();
    lemma2_to64_rest();
    lemma_fraction_round(15096118242182852518, 1, 12354092682771076823, 0, 1);
    lemma_fraction_round(11799877747671905189, 2, 15096118242182852518, 1, 1);
    lemma_fraction_round(10432385271652018722, 3, 11799877747671905189, 1, 1);
    lemma_fraction_round(9809269625831010032, 4, 10432385271652018722, 1, 1);
    lemma_fraction_round(13451731722633978219, 5, 9809269625831010032, 1, 17);
    lemma_fraction_round(15752480834320323516, 6, 13451731722633978219, 17, 49);
    lemma_fraction_round(17046465395404459655, 7, 15752480834320323516, 49, 113);
    lemma_fraction_round(12538974928405674196, 8, 17046465395404459655, 113, 113);
    lemma_fraction_round(15208657450641723877, 9, 12538974928405674196, 113, 369);
    lemma_fraction_round(11843779204643757573, 10, 15208657450641723877, 369, 369);
    lemma_fraction_round(14781040689125602355, 11, 11843779204643757573, 369, 1393);
    lemma_fraction_round(16512482391675318668, 12, 14781040689125602355, 1393, 3441);
    lemma_fraction_round(17452837497119773726, 13, 16512482391675318668, 3441, 7537);
    lemma_fraction_round(12687553481057922808, 14, 17452837497119773726, 7537, 7537);
    lemma_fraction_round(15298498357243374539, 15, 12687553481057922808, 7537, 23921);
    lemma_fraction_round(11878709608121046456, 16, 15298498357243374539, 23921, 23921);
    lemma_fraction_round(10467175265250019305, 17, 11878709608121046456, 23921, 23921);
    lemma_fraction_round(9825612024009751160, 18, 10467175265250019305, 23921, 23921);
    lemma_fraction_round(13462932458215453359, 19, 9825612024009751160, 23921, 286065);
    lemma_fraction_round(11143322429561523728, 20, 13462932458215453359, 286065, 286065);
    lemma_floor_log2_unique(696457651847595233, 59);
    assert(log2_mantissa(696457651847595233) == 11143322429561523728);
}

/// The logarithm of the multiplier of bit 17, to twenty fractional bits.
proof fn lemma_multiplier_log_17()
    ensures
        log2_bits(26294789957452057, 20) == 57195234,
{
    lemma2_to64();
    lemma2_to64_rest();
    lemma_fraction_round(12354092682687100193, 1, 16547484521124066105, 0, 0);
    lemma_fraction_round(15096118242131544779, 2, 12354092682687100193, 0, 2);
    lemma_fraction_round(11799877747651852847, 3, 15096118242131544779, 2, 2);
    lemma_fraction_round(10432385271643154488, 4, 11799877747651852847, 2, 2);
    lemma_fraction_round(9809269625826842641, 5, 10432385271643154488, 2, 2);
    lemma_fraction_round(13451731722631120788, 6, 9809269625826842641, 2, 34);
    lemma_fraction_round(15752480834318650437, 7, 13451731722631120788, 34, 98);
    lemma_fraction_round(17046465395403554398, 8, 15752480834318650437, 98, 226);
    lemma_fraction_round(12538974928405341253, 9, 17046465395403554398, 226, 226);
    lemma_fraction_round(15208657450641521962, 10, 12538974928405341253, 226, 738);
    lemma_fraction_round(11843779204643678952, 11, 15208657450641521962, 738, 738);
    lemma_fraction_round(14781040689125553296, 12, 11843779204643678952, 738, 2786);
    lemma_fraction_round(16512482391675291265, 13, 14781040689125553296, 2786, 6882);
    lemma_fraction_round(17452837497119759244, 14, 16512482391675291265, 6882, 15074);
    lemma_fraction_round(12687553481057917544, 15, 17452837497119759244, 15074, 15074);
    lemma_fraction_round(15298498357243371365, 16, 12687553481057917544, 15074, 47842);
    lemma_fraction_round(11878709608121045224, 17, 15298498357243371365, 47842, 47842);
    lemma_fraction_round(10467175265250018762, 18, 11878709608121045224, 47842, 47842);
    lemma_fraction_round(9825612024009750905, 19, 10467175265250018762, 47842, 47842);
    lemma_fraction_round(13462932458215453184, 20, 9825612024009750905, 47842, 572130);
    lemma_floor_log2_unique(26294789957452057, 54);
    assert(log2_mantissa(26294789957452057) == 13462932458215453184);
}

/// The logarithm of the multiplier of bit 18, to twenty fractional bits.
proof fn lemma_multiplier_log_18()
    ensures
        log2_bits(37481735321082, 20) == 47281605,
{
    lemma2_to64();
    lemma2_to64_rest();
    lemma_fraction_round(16547484493666482127, 1, 14843770910140292199, 0, 1);
    lemma_fraction_round(12354092672437399188, 2, 16547484493666482127, 1, 1);
    lemma_fraction_round(15096118235869219316, 3, 12354092672437399188, 1, 5);
    lemma_fraction_round(11799877745204380136, 4, 15096118235869219316, 5, 5);
    lemma_fraction_round(10432385270561237420, 5, 11799877745204380136, 5, 5);
    lemma_fraction_round(9809269625318195004, 6, 10432385270561237420, 5, 5);
    lemma_fraction_round(13451731722282359269, 7, 9809269625318195004, 5, 69);
    lemma_fraction_round(15752480834114444047, 8, 13451731722282359269, 69, 197);
    lemma_fraction_round(17046465395293063955, 9, 15752480834114444047, 197, 453);
    lemma_fraction_round(12538974928364704181, 10, 17046465395293063955, 453, 453);
    lemma_fraction_round(15208657450616877391, 11, 12538974928364704181, 453, 1477);
    lemma_fraction_round(11843779204634082942, 12, 15208657450616877391, 1477, 1477);
    lemma_fraction_round(14781040689119565384, 13, 11843779204634082942, 1477, 5573);
    lemma_fraction_round(16512482391671946599, 14, 14781040689119565384, 5573, 13765);
    lemma_fraction_round(17452837497117991675, 15, 16512482391671946599, 13765, 30149);
    lemma_fraction_round(12687553481057275066, 16, 17452837497117991675, 30149, 30149);
    lemma_fraction_round(15298498357242984019, 17, 12687553481057275066, 30149, 95685);
    lemma_fraction_round(11878709608120894844, 18, 15298498357242984019, 95685, 95685);
    lemma_fraction_round(10467175265249952507, 19, 11878709608120894844, 95685, 95685);
    lemma_fraction_round(9825612024009719808, 20, 10467175265249952507, 95685, 95685);
    lemma_floor_log2_unique(37481735321082, 45);
    assert(log2_mantissa(37481735321082) == 9825612024009719808);
}
/// The binary logarithm of each multiplier, to twenty fractional bits, with
/// the last bit weighing one.
pub open spec fn multiplier_log(k: int) -> int {
    if k == 0 {
        67108788
    } else if k == 1 {
        67108712
    } else if k == 2 {
        67108561
    } else if k == 3 {
        67108258
    } else if k == 4 {
        67107653
    } else if k == 5 {
        67106443
    } else if k == 6 {
        67104023
    } else if k == 7 {
        67099182
    } else if k == 8 {
        67089501
    } else if k == 9 {
        67070138
    } else if k == 10 {
        67031413
    } else if k == 11 {
        66953963
    } else if k == 12 {
        66799063
    } else if k == 13 {
        66489262
    } else if k == 14 {
        65869660
    } else if k == 15 {
        64630456
    } else if k == 16 {
        62152049
    } else if k == 17 {
        57195234
    } else {
        47281605
    }
}

/// The table holds the logarithms of the multipliers.
pub proof fn lemma_multiplier_log(k: int)
    requires
        0 <= k < ladder_len(),
    ensures
        log2_bits(ladder_multiplier(k), 20) == multiplier_log(k),
{
    if k == 0 {
        lemma_multiplier_log_0();
    } else if k == 1 {
        lemma_multiplier_log_1();
    } else if k == 2 {
        lemma_multiplier_log_2();
    } else if k == 3 {
        lemma_multiplier_log_3();
    } else if k == 4 {
        lemma_multiplier_log_4();
    } else if k == 5 {
        lemma_multiplier_log_5();
    } else if k == 6 {
        lemma_multiplier_log_6();
    } else if k == 7 {
        lemma_multiplier_log_7();
    } else if k == 8 {
        lemma_multiplier_log_8();
    } else if k == 9 {
        lemma_multiplier_log_9();
    } else if k == 10 {
        lemma_multiplier_log_10();
    } else if k == 11 {
        lemma_multiplier_log_11();
    } else if k == 12 {
        lemma_multiplier_log_12();
    } else if k == 13 {
        lemma_multiplier_log_13();
    } else if k == 14 {
        lemma_multiplier_log_14();
    } else if k == 15 {
        lemma_multiplier_log_15();
    } else if k == 16 {
        lemma_multiplier_log_16();
    } else if k == 17 {
        lemma_multiplier_log_17();
    } else {
        lemma_multiplier_log_18();
    }
}

/// The logarithm of one in Q64.64, to twenty fractional bits: `64 · 2^20`.
pub open spec fn log_of_one() -> int {
    67108864
}

/// The weight of one unit of the twentieth fractional bit in Q64.64:
/// `2^44`.
pub open spec fn log_unit() -> int {
    17592186044416
}

/// How far the logarithm of a multiplier lies below the logarithm of one.
pub open spec fn multiplier_deficit(k: int) -> int {
    log_of_one() - multiplier_log(k)
}

/// How much wider than the width of a tick the logarithm of a multiplier
/// may be, for each tick that the multiplier stands for.
pub open spec fn tick_excess() -> int {
    4530000000
}

/// Each multiplier stands for `2^k` ticks: its deficit, in Q64.64, is at
/// least `2^k` widths of a tick, and exceeds them by no more than the
/// excess for each tick and one unit of rounding.
pub proof fn lemma_multiplier_deficit_is_near(k: int)
    requires
        0 <= k < ladder_len(),
    ensures
        2 <= multiplier_deficit(k),
        0 <= multiplier_deficit(k) * log_unit() - two_to(k) * LOG_BASE,
        multiplier_deficit(k) * log_unit() - two_to(k) * LOG_BASE <= two_to(k) * tick_excess()
            + log_unit(),
{
    lemma2_to64();
}

/// The number of squarings behind twenty fractional bits stays within the
/// error that the bracket of the logarithm allows.
proof fn lemma_twenty_bits_are_allowed()
    ensures
        grown_error(1, 20) <= 0x8000_0000_0000_0000,
        two_to(20) == 1048576,
        repeated_square(q64(), 20) == two_to(log_of_one()),
{
    reveal_with_fuel(grown_error, 21);
    lemma2_to64();
    lemma_repeated_square_of_two_to(64, 20);
    assert(64 * two_to(20) == log_of_one());
}

/// The bracket of the logarithm of each multiplier, in terms of its
/// deficit: `2^(64·2^20 - deficit) <= c^(2^20) < 2^(64·2^20 - deficit + 2)`.
pub proof fn lemma_multiplier_bracket(k: int)
    requires
        0 <= k < ladder_len(),
    ensures
        2 <= multiplier_deficit(k) <= log_of_one(),
        two_to(log_of_one()) <= repeated_square(ladder_multiplier(k), 20) * two_to(
            multiplier_deficit(k),
        ),
        repeated_square(ladder_multiplier(k), 20) * two_to(multiplier_deficit(k) - 2) <= two_to(
            log_of_one(),
        ),
        0 < repeated_square(ladder_multiplier(k), 20),
{
    let c = ladder_multiplier(k);
    let l = multiplier_log(k);
    let d = multiplier_deficit(k);
    lemma_twenty_bits_are_allowed();
    lemma_multiplier_log(k);
    lemma_log2_bits_bracket(c, 20);
    lemma_repeated_square_sign(c, 20);
    lemma_two_to_adds(l, d);
    lemma_two_to_adds(l + 2, d - 2);
    let s = repeated_square(c, 20);
    assert(two_to(l) * two_to(d) <= s * two_to(d)) by (nonlinear_arith)
        requires
            two_to(l) <= s,
            0 < two_to(d),
    ;
    assert(s * two_to(d - 2) <= two_to(l + 2) * two_to(d - 2)) by (nonlinear_arith)
        requires
            s < two_to(l + 2),
            0 < two_to(d - 2),
    ;
}

/// The deficits of the multipliers of the set bits from bit `k` upwards.
pub open spec fn fold_deficit(high_bits: int, k: int) -> int
    decreases ladder_len() - k,
{
    if k >= ladder_len() {
        0
    } else {
        (if high_bits % 2 == 1 {
            multiplier_deficit(k)
        } else {
            0
        }) + fold_deficit(high_bits / 2, k + 1)
    }
}

/// The number of set bits from bit `k` upwards.
pub open spec fn fold_count(high_bits: int, k: int) -> int
    decreases ladder_len() - k,
{
    if k >= ladder_len() {
        0
    } else {
        (if high_bits % 2 == 1 {
            1int
        } else {
            0int
        }) + fold_count(high_bits / 2, k + 1)
    }
}

/// Whether `deficit` brackets the logarithm of `ratio`, `count` floors
/// after one: `ratio^(2^20)` is at most `2^(64·2^20 - deficit + 2·count)`,
/// and `(ratio + count)^(2^20)` is at least `2^(64·2^20 - deficit)`.
pub open spec fn brackets_ratio(ratio: int, count: int, deficit: int) -> bool {
    &&& 0 <= ratio
    &&& 0 <= count
    &&& 2 * count <= deficit
    &&& repeated_square(ratio, 20) * two_to(deficit - 2 * count) <= two_to(log_of_one())
    &&& two_to(log_of_one()) <= repeated_square(ratio + count, 20) * two_to(deficit)
}

/// One rung adds the deficit of its multiplier to the bracket of a ratio.
proof fn lemma_step_logarithm(ratio: int, count: int, deficit: int, k: int)
    requires
        0 <= k < ladder_len(),
        brackets_ratio(ratio, count, deficit),
    ensures
        brackets_ratio(
            ladder_step(ratio, ladder_multiplier(k)),
            count + 1,
            deficit + multiplier_deficit(k),
        ),
{
    let c = ladder_multiplier(k);
    let d = multiplier_deficit(k);
    let q = q64();
    let next = ladder_step(ratio, c);
    lemma_twenty_bits_are_allowed();
    lemma_multiplier_bracket(k);
    assert(0 < c < q);
    assert(0 <= ratio * c) by (nonlinear_arith)
        requires
            0 <= ratio,
            0 < c,
    ;
    lemma_div_bounds(ratio * c, q);
    lemma_div_at_least(ratio * c, q, 0);
    let b = two_to(log_of_one());
    lemma_two_to_adds(log_of_one(), 0);
    // Upper side: next * q <= ratio * c.
    let a = repeated_square(next, 20);
    let big_a = repeated_square(ratio, 20);
    let big_b = repeated_square(c, 20);
    let u = two_to(deficit - 2 * count);
    let v = two_to(d - 2);
    assert(0 <= next * q <= ratio * c) by (nonlinear_arith)
        requires
            next * q <= ratio * c,
            0 <= next,
            0 < q,
    ;
    lemma_repeated_square_monotone(next * q, ratio * c, 20);
    lemma_repeated_square_of_product(next, q, 20);
    lemma_repeated_square_of_product(ratio, c, 20);
    lemma_repeated_square_sign(next, 20);
    lemma_repeated_square_sign(ratio, 20);
    lemma_two_to_adds(deficit - 2 * count, d - 2);
    assert(a * (u * v) <= b) by (nonlinear_arith)
        requires
            a * b <= big_a * big_b,
            big_a * u <= b,
            big_b * v <= b,
            0 < b,
            0 < u,
            0 < v,
            0 <= a,
            0 <= big_a,
            0 < big_b,
    {
        assert((a * b) * (u * v) <= (big_a * big_b) * (u * v));
        assert((big_a * big_b) * (u * v) == (big_a * u) * (big_b * v));
        assert((big_a * u) * (big_b * v) <= b * (big_b * v));
        assert(b * (big_b * v) <= b * b);
        assert((a * b) * (u * v) == (a * (u * v)) * b);
        assert((a * (u * v)) * b <= b * b);
    }
    // Lower side: (ratio + count) * c <= (next + count + 1) * q.
    let low = repeated_square(ratio + count, 20);
    let low_next = repeated_square(next + count + 1, 20);
    let y = two_to(deficit);
    let z = two_to(d);
    assert(0 <= (ratio + count) * c <= (next + count + 1) * q) by (nonlinear_arith)
        requires
            ratio * c < next * q + q,
            0 <= count,
            0 <= ratio,
            0 < c < q,
    ;
    lemma_repeated_square_monotone((ratio + count) * c, (next + count + 1) * q, 20);
    lemma_repeated_square_of_product(ratio + count, c, 20);
    lemma_repeated_square_of_product(next + count + 1, q, 20);
    lemma_repeated_square_sign(ratio + count, 20);
    lemma_repeated_square_sign(next + count + 1, 20);
    lemma_two_to_adds(deficit, d);
    assert(b <= low_next * (y * z)) by (nonlinear_arith)
        requires
            low * big_b <= low_next * b,
            b <= low * y,
            b <= big_b * z,
            0 < b,
            0 < y,
            0 < z,
            0 <= low,
            0 <= low_next,
            0 < big_b,
    {
        assert(b * b <= (low * y) * b);
        assert((low * y) * b <= (low * y) * (big_b * z));
        assert((low * y) * (big_b * z) == (low * big_b) * (y * z));
        assert((low * big_b) * (y * z) <= (low_next * b) * (y * z));
        assert((low_next * b) * (y * z) == (low_next * (y * z)) * b);
        assert(b * b <= (low_next * (y * z)) * b);
    }
}

/// From rung `k` on, the ladder adds to the bracket of a ratio the
/// deficits of the multipliers whose bits are set.
proof fn lemma_fold_logarithm(high_bits: int, k: int, ratio: int, count: int, deficit: int)
    requires
        0 <= k <= ladder_len(),
        brackets_ratio(ratio, count, deficit),
    ensures
        brackets_ratio(
            ladder_fold(high_bits, k, ratio),
            count + fold_count(high_bits, k),
            deficit + fold_deficit(high_bits, k),
        ),
        0 <= fold_count(high_bits, k) <= ladder_len() - k,
    decreases ladder_len() - k,
{
    if k < ladder_len() {
        if high_bits % 2 == 1 {
            lemma_step_logarithm(ratio, count, deficit, k);
            lemma_fold_logarithm(
                high_bits / 2,
                k + 1,
                ladder_step(ratio, ladder_multiplier(k)),
                count + 1,
                deficit + multiplier_deficit(k),
            );
        } else {
            lemma_fold_logarithm(high_bits / 2, k + 1, ratio, count, deficit);
        }
    }
}

/// The bracket of the logarithm of the ratio of a tick: the deficits of
/// the multipliers of the set bits of the tick, added up.
pub proof fn lemma_ratio_logarithm(abs_tick: int)
    ensures
        brackets_ratio(ladder_ratio(abs_tick), fold_count(abs_tick, 0), fold_deficit(abs_tick, 0)),
        0 <= fold_count(abs_tick, 0) <= ladder_len(),
{
    lemma_twenty_bits_are_allowed();
    lemma2_to64();
    let b = two_to(log_of_one());
    assert(b * two_to(0) == b) by (nonlinear_arith)
        requires
            two_to(0) == 1,
    ;
    lemma_fold_logarithm(abs_tick, 0, q64(), 0, 0);
}

/// The deficits of the set bits of a number add up to the number of widths
/// of a tick that the number counts, and exceed them by no more than the
/// excess for each tick and one unit of rounding for each set bit.
pub proof fn lemma_fold_deficit_is_near(high_bits: int, k: int)
    requires
        0 <= k <= ladder_len(),
        0 <= high_bits < ladder_span(k),
    ensures
        0 <= fold_deficit(high_bits, k) * log_unit() - (high_bits * two_to(k)) * LOG_BASE,
        fold_deficit(high_bits, k) * log_unit() - (high_bits * two_to(k)) * LOG_BASE <= (high_bits
            * two_to(k)) * tick_excess() + fold_count(high_bits, k) * log_unit(),
        0 <= high_bits * two_to(k),
    decreases ladder_len() - k,
{
    let w = two_to(k);
    lemma_pow2_pos(k as nat);
    if k >= ladder_len() {
        assert(high_bits == 0);
        assert(high_bits * w == 0) by (nonlinear_arith)
            requires
                high_bits == 0,
        ;
    } else {
        let half = high_bits / 2;
        let bit = high_bits % 2;
        lemma_pow2_unfold((k + 1) as nat);
        lemma_fold_deficit_is_near(half, k + 1);
        lemma_multiplier_deficit_is_near(k);
        let p = half * w;
        assert(half * two_to(k + 1) == 2 * p && high_bits * w == 2 * p + bit * w && 0 <= p)
            by (nonlinear_arith)
            requires
                two_to(k + 1) == 2 * w,
                high_bits == 2 * half + bit,
                p == half * w,
                0 <= half,
                0 < w,
        ;
        if bit == 1 {
            assert(bit * w == w) by (nonlinear_arith)
                requires
                    bit == 1,
            ;
        } else {
            assert(bit * w == 0) by (nonlinear_arith)
                requires
                    bit == 0,
            ;
        }
    }
}

/// A number below the capacity of the ladder counts itself in ticks.
proof fn lemma_ticks_of(abs_tick: int)
    requires
        0 <= abs_tick,
    ensures
        abs_tick * two_to(0) == abs_tick,
{
    lemma2_to64();
    assert(abs_tick * two_to(0) == abs_tick) by (nonlinear_arith)
        requires
            two_to(0) == 1,
    ;
}

/// The greatest 128-bit number, plus one: `2^128`.
pub open spec fn two_to_128() -> int {
    340282366920938463463374607431768211456int
}

/// The logarithm in Q64.64, as the pricing core computes it, of the ratio
/// of a tick at or below zero lies within three widths of a tick of the
/// tick times the width: above `-(a + 3)` widths, and at or below
/// `-(a - 1)` widths.
pub proof fn lemma_log_of_ratio(abs_tick: int)
    requires
        0 <= abs_tick <= 443636,
    ensures
        -(abs_tick + 3) * LOG_BASE < log2_x64(ladder_ratio(abs_tick)),
        log2_x64(ladder_ratio(abs_tick)) < -(abs_tick - 1) * LOG_BASE,
{
    let ratio = ladder_ratio(abs_tick);
    let count = fold_count(abs_tick, 0);
    let deficit = fold_deficit(abs_tick, 0);
    let one = log_of_one();
    let b = two_to(one);
    lemma2_to64();
    lemma_ratio_bounds(abs_tick);
    lemma_ratio_logarithm(abs_tick);
    crate::utils::ladder::lemma_ladder_capacity_is_span();
    lemma_fold_deficit_is_near(abs_tick, 0);
    lemma_ticks_of(abs_tick);
    // The algorithm's bracket, lifted to twenty bits.
    lemma_log2_bits_lifted(ratio);
    lemma_log2_x64_in_bits(ratio);
    let l = log2_bits(ratio, 16);
    let s = repeated_square(ratio, 20);
    lemma_repeated_square_sign(ratio, 20);
    // (ratio + count)^(2^20) <= 2 * ratio^(2^20)
    lemma_pow2_unfold(21);
    assert(count * two_to(21) <= ratio) by (nonlinear_arith)
        requires
            0 <= count <= 19,
            two_to(21) == 2097152,
            76162531 <= ratio,
    ;
    lemma_repeated_square_nearby(ratio, count, 20);
    let near = repeated_square(ratio + count, 20);
    // 2^(16 l) * 2^(deficit - 2 count) <= 2^one
    let u = two_to(deficit - 2 * count);
    lemma_two_to_adds(16 * l, deficit - 2 * count);
    assert(two_to(16 * l) * u <= b) by (nonlinear_arith)
        requires
            two_to(16 * l) <= s,
            s * u <= b,
            0 < u,
    ;
    lemma_two_to_order(16 * l + deficit - 2 * count, one);
    // 2^one <= near * 2^deficit <= 2 s * 2^deficit < 2^(16 l + 33 + deficit)
    let y = two_to(deficit);
    lemma_two_to_adds(16 * l + 32, deficit);
    lemma_two_to_adds(16 * l + 32 + deficit, 1);
    assert(b < two_to(16 * l + 32 + deficit) * 2) by (nonlinear_arith)
        requires
            b <= near * y,
            near <= 2 * s,
            s < two_to(16 * l + 32),
            two_to(16 * l + 32 + deficit) == two_to(16 * l + 32) * y,
            0 < y,
            0 <= s,
    {
        assert(near * y <= (2 * s) * y);
        assert(s * y < two_to(16 * l + 32) * y);
    }
    assert(two_to(1) == 2);
    lemma_two_to_order(one, 16 * l + 33 + deficit);
    // one - deficit - 33 < 16 l <= one - deficit + 2 count
    assert(log2_x64(ratio) == (16 * l - one) * log_unit()) by (nonlinear_arith)
        requires
            log2_x64(ratio) == (l - 64 * 65536) * 0x1_0000_0000_0000,
            one == 67108864,
            log_unit() == 17592186044416,
    ;
    let e = deficit * log_unit() - abs_tick * LOG_BASE;
    assert((16 * l - one) * log_unit() > -(abs_tick + 3) * LOG_BASE) by (nonlinear_arith)
        requires
            one - deficit - 33 < 16 * l,
            e == deficit * log_unit() - abs_tick * LOG_BASE,
            e <= abs_tick * tick_excess() + count * log_unit(),
            0 <= count <= 19,
            0 <= abs_tick <= 443636,
            log_unit() == 17592186044416,
            tick_excess() == 4530000000,
            LOG_BASE == 1330580271462080,
    {
        assert((16 * l - one) * log_unit() >= (-deficit - 32) * log_unit());
        assert((-deficit - 32) * log_unit() == -e - abs_tick * LOG_BASE - 32 * log_unit());
    }
    assert((16 * l - one) * log_unit() < -(abs_tick - 1) * LOG_BASE) by (nonlinear_arith)
        requires
            16 * l <= one - deficit + 2 * count,
            e == deficit * log_unit() - abs_tick * LOG_BASE,
            0 <= e,
            0 <= count <= 19,
            log_unit() == 17592186044416,
            LOG_BASE == 1330580271462080,
    {
        assert((16 * l - one) * log_unit() <= (-deficit + 2 * count) * log_unit());
        assert((-deficit + 2 * count) * log_unit() == -e - abs_tick * LOG_BASE + (2 * count)
            * log_unit());
    }
}

/// The logarithm in Q64.64, as the pricing core computes it, of the
/// reciprocal of the ratio of a tick lies within two widths of a tick of
/// the tick times the width: above `a - 1` widths, and below `a + 2`
/// widths.
pub proof fn lemma_log_of_reciprocal(abs_tick: int)
    requires
        1 <= abs_tick <= 443636,
    ensures
        (abs_tick - 1) * LOG_BASE < log2_x64(
            (two_to_128() - 1) / ladder_ratio(abs_tick),
        ),
        log2_x64((two_to_128() - 1) / ladder_ratio(abs_tick)) < (abs_tick + 2) * LOG_BASE,
{
    let ratio = ladder_ratio(abs_tick);
    let count = fold_count(abs_tick, 0);
    let deficit = fold_deficit(abs_tick, 0);
    let one = log_of_one();
    let b = two_to(one);
    let m = two_to_128() - 1;
    let x = m / ratio;
    lemma2_to64();
    lemma_twenty_bits_are_allowed();
    lemma_ratio_bounds(abs_tick);
    lemma_ratio_logarithm(abs_tick);
    crate::utils::ladder::lemma_ladder_capacity_is_span();
    lemma_fold_deficit_is_near(abs_tick, 0);
    lemma_ticks_of(abs_tick);
    // x * ratio <= m < x * ratio + ratio, and x >= 2^64 - 1.
    lemma_div_bounds(m, ratio);
    crate::utils::arith::lemma_div_antitone(m, ratio, q64());
    assert(m / q64() == q64() - 1);
    assert(x >= q64() - 1);
    // Powers: x^N * ratio^N <= (2^128)^N = b * b <= (x + 1)^N * ratio^N.
    let sx = repeated_square(x, 20);
    let sx1 = repeated_square(x + 1, 20);
    let sr = repeated_square(ratio, 20);
    let near = repeated_square(ratio + count, 20);
    lemma_repeated_square_sign(x, 20);
    lemma_repeated_square_sign(x + 1, 20);
    lemma_repeated_square_sign(ratio, 20);
    lemma_repeated_square_sign(ratio + count, 20);
    assert(0 <= x * ratio <= two_to_128() <= (x + 1) * ratio) by (nonlinear_arith)
        requires
            x * ratio <= m < x * ratio + ratio,
            m == two_to_128() - 1,
            0 <= x,
            0 < ratio,
    ;
    lemma_pow2_unfold(65);
    lemma_two_to_adds(64, 64);
    assert(two_to(128) == two_to_128()) by (nonlinear_arith)
        requires
            two_to(128) == two_to(64) * two_to(64),
            two_to(64) == 0x1_0000_0000_0000_0000,
    ;
    lemma_repeated_square_of_two_to(128, 20);
    assert(128 * two_to(20) == one + one);
    lemma_two_to_adds(one, one);
    lemma_repeated_square_monotone(x * ratio, two_to_128(), 20);
    lemma_repeated_square_monotone(two_to_128(), (x + 1) * ratio, 20);
    lemma_repeated_square_of_product(x, ratio, 20);
    lemma_repeated_square_of_product(x + 1, ratio, 20);
    assert(sx * sr <= b * b <= sx1 * sr);
    // Nearby powers.
    lemma_pow2_unfold(21);
    assert(count * two_to(21) <= ratio) by (nonlinear_arith)
        requires
            0 <= count <= 19,
            two_to(21) == 2097152,
            76162531 <= ratio,
    ;
    lemma_repeated_square_nearby(ratio, count, 20);
    assert(1 * two_to(21) <= x);
    lemma_repeated_square_nearby(x, 1, 20);
    // The algorithm's bracket of x.
    lemma_log2_bits_lifted(x);
    lemma_log2_x64_in_bits(x);
    let l = log2_bits(x, 16);
    let y = two_to(deficit);
    let u = two_to(deficit - 2 * count);
    lemma_two_to_adds(deficit, 0);
    lemma_two_to_adds(deficit - 2 * count, 0);
    // Upper: 2^(16 l) * b <= sx * near * y <= 2 * sx * sr * y <= 2 * b * b * y.
    lemma_two_to_adds(one, deficit);
    lemma_two_to_adds(one + deficit, 1);
    assert(two_to(1) == 2);
    assert(two_to(16 * l) <= two_to(one + deficit + 1)) by (nonlinear_arith)
        requires
            two_to(16 * l) <= sx,
            b <= near * y,
            near <= 2 * sr,
            sx * sr <= b * b,
            two_to(one + deficit + 1) == (b * y) * 2,
            0 < b,
            0 < y,
            0 <= sx,
            0 <= sr,
            0 <= near,
    {
        assert(two_to(16 * l) * b <= sx * b);
        assert(sx * b <= sx * (near * y));
        assert(sx * (near * y) <= sx * ((2 * sr) * y));
        assert(sx * ((2 * sr) * y) == (2 * y) * (sx * sr));
        assert((2 * y) * (sx * sr) <= (2 * y) * (b * b));
        assert((2 * y) * (b * b) == ((b * y) * 2) * b);
        assert(two_to(16 * l) * b <= ((b * y) * 2) * b);
    }
    lemma_two_to_order(16 * l, one + deficit + 1);
    // Lower: b * b * u <= sx1 * sr * u <= sx1 * b, and sx1 <= 2 sx < 2^(16 l + 33).
    lemma_two_to_adds(one, deficit - 2 * count);
    lemma_two_to_adds(16 * l + 32, 1);
    assert(two_to(one + deficit - 2 * count) < two_to(16 * l + 33)) by (nonlinear_arith)
        requires
            b * b <= sx1 * sr,
            sr * u <= b,
            sx1 <= 2 * sx,
            sx < two_to(16 * l + 32),
            two_to(16 * l + 33) == two_to(16 * l + 32) * 2,
            two_to(one + deficit - 2 * count) == b * u,
            0 < b,
            0 < u,
            0 <= sx1,
            0 <= sr,
    {
        assert((b * b) * u <= (sx1 * sr) * u);
        assert((sx1 * sr) * u == sx1 * (sr * u));
        assert(sx1 * (sr * u) <= sx1 * b);
        assert((b * b) * u == (b * u) * b);
        assert((b * u) * b <= sx1 * b);
        assert(b * u <= sx1);
    }
    lemma_two_to_order(one + deficit - 2 * count, 16 * l + 33);
    // one + deficit - 2 count - 33 < 16 l <= one + deficit + 1
    assert(log2_x64(x) == (16 * l - one) * log_unit()) by (nonlinear_arith)
        requires
            log2_x64(x) == (l - 64 * 65536) * 0x1_0000_0000_0000,
            one == 67108864,
            log_unit() == 17592186044416,
    ;
    let e = deficit * log_unit() - abs_tick * LOG_BASE;
    assert((16 * l - one) * log_unit() > (abs_tick - 1) * LOG_BASE) by (nonlinear_arith)
        requires
            one + deficit - 2 * count - 33 < 16 * l,
            e == deficit * log_unit() - abs_tick * LOG_BASE,
            0 <= e,
            0 <= count <= 19,
            log_unit() == 17592186044416,
            LOG_BASE == 1330580271462080,
    {
        assert((16 * l - one) * log_unit() >= (deficit - 2 * count - 32) * log_unit());
        assert((deficit - 2 * count - 32) * log_unit() == e + abs_tick * LOG_BASE - (2 * count
            + 32) * log_unit());
    }
    assert((16 * l - one) * log_unit() < (abs_tick + 2) * LOG_BASE) by (nonlinear_arith)
        requires
            16 * l <= one + deficit + 1,
            e == deficit * log_unit() - abs_tick * LOG_BASE,
            e <= abs_tick * tick_excess() + count * log_unit(),
            0 <= count <= 19,
            0 <= abs_tick <= 443636,
            log_unit() == 17592186044416,
            tick_excess() == 4530000000,
            LOG_BASE == 1330580271462080,
    {
        assert((16 * l - one) * log_unit() <= (deficit + 1) * log_unit());
        assert((deficit + 1) * log_unit() == e + abs_tick * LOG_BASE + log_unit());
    }
}

} // verus!
