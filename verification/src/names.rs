//! The identifiers of the component types that come with the runtime.
//!
//! A type identifier is the hash of a name. Here the hashes of the names of
//! the built-in types are worked out byte by byte, so that it is known which
//! numbers they are, and that no two of them are the same.

use vstd::prelude::*;
use vstd::utf8::encode_utf8;
use crate::base_components::{Children, Name, Parent, Player, Position};
use crate::component::{type_id_of, ComponentTypeId};
use crate::hashing::{hash_of_bytes, HASH_PRIME};

verus! {

/// A text of plain characters is encoded with one byte for each character,
/// the number of the character.
pub proof fn lemma_plain_text(chars: Seq<char>)
    requires
        forall|i: int| 0 <= i < chars.len() ==> (#[trigger] chars[i]) as u32 <= 0x7f,
    ensures
        encode_utf8(chars).len() == chars.len(),
        forall|i: int|
            0 <= i < chars.len() ==> (#[trigger] encode_utf8(chars)[i]) == (chars[i] as u32) as u8,
    decreases chars.len(),
{
    if chars.len() > 0 {
        let rest = chars.drop_first();
        assert forall|i: int| 0 <= i < rest.len() implies (#[trigger] rest[i]) as u32 <= 0x7f by {
            assert(rest[i] == chars[i + 1]);
        }
        lemma_plain_text(rest);
        let first = chars[0] as u32;
        assert(first & 0x7f == first) by (bit_vector)
            requires
                first <= 0x7f,
        ;
        let bytes = encode_utf8(chars);
        assert(bytes =~= seq![first as u8] + encode_utf8(rest));
        assert forall|i: int| 0 <= i < chars.len() implies (#[trigger] bytes[i]) == (chars[i] as u32)
            as u8 by {
            if i > 0 {
                assert(bytes[i] == encode_utf8(rest)[i - 1]);
                assert(rest[i - 1] == chars[i]);
            }
        }
    }
}

/// One step of the hash: the hash of one byte more is the hash so far with
/// the byte folded in, times the multiplier, modulo 2^64.
proof fn lemma_mixed(bytes: Seq<u8>, upto: int, state: u64, mixed: u64, next: u64)
    requires
        0 <= upto < bytes.len(),
        hash_of_bytes(bytes.subrange(0, upto)) == state,
        state ^ (bytes[upto] as u64) == mixed,
        (mixed as nat * HASH_PRIME as nat) % 0x1_0000_0000_0000_0000nat == next as nat,
    ensures
        hash_of_bytes(bytes.subrange(0, upto + 1)) == next,
{
    let longer = bytes.subrange(0, upto + 1);
    assert(longer.drop_last() =~= bytes.subrange(0, upto));
    assert(longer.last() == bytes[upto]);
}

/// The hash of the first eight bytes of the names of the built-in types.
proof fn lemma_prefix_first(bytes: Seq<u8>)
    requires
        bytes.len() >= 8,
        bytes[0] == 0x6du8,
        bytes[1] == 0x65u8,
        bytes[2] == 0x6cu8,
        bytes[3] == 0x6fu8,
        bytes[4] == 0x6eu8,
        bytes[5] == 0x3au8,
        bytes[6] == 0x3au8,
        bytes[7] == 0x62u8,
    ensures
        hash_of_bytes(bytes.subrange(0, 8)) == 0x6ba1_3fe7_77e8_2f8eu64,
{
    assert(bytes.subrange(0, 0) =~= Seq::<u8>::empty());
    assert(
        0xcbf2_9ce4_8422_2325u64 ^ 0x6du64 == 0xcbf2_9ce4_8422_2348u64
        && 0xaf63_e04c_8601_f358u64 ^ 0x65u64 == 0xaf63_e04c_8601_f33du64
        && 0x08a9_5f07_b550_50a7u64 ^ 0x6cu64 == 0x08a9_5f07_b550_50cbu64
        && 0x081d_4519_1779_48f1u64 ^ 0x6fu64 == 0x081d_4519_1779_489eu64
        && 0x4305_07a2_e316_647au64 ^ 0x6eu64 == 0x4305_07a2_e316_6414u64
        && 0xf7f0_0dc7_df0c_0dfcu64 ^ 0x3au64 == 0xf7f0_0dc7_df0c_0dc6u64
        && 0x58f5_30a0_017b_6772u64 ^ 0x3au64 == 0x58f5_30a0_017b_6748u64
        && 0xa408_e7e2_84b0_7f58u64 ^ 0x62u64 == 0xa408_e7e2_84b0_7f3au64
    ) by (bit_vector);
    assert((0xcbf2_9ce4_8422_2348nat * 0x0000_0100_0000_01b3nat) % 0x1_0000_0000_0000_0000nat == 0xaf63_e04c_8601_f358nat);
    lemma_mixed(bytes, 0, 0xcbf2_9ce4_8422_2325u64, 0xcbf2_9ce4_8422_2348u64, 0xaf63_e04c_8601_f358u64);
    assert((0xaf63_e04c_8601_f33dnat * 0x0000_0100_0000_01b3nat) % 0x1_0000_0000_0000_0000nat == 0x08a9_5f07_b550_50a7nat);
    lemma_mixed(bytes, 1, 0xaf63_e04c_8601_f358u64, 0xaf63_e04c_8601_f33du64, 0x08a9_5f07_b550_50a7u64);
    assert((0x08a9_5f07_b550_50cbnat * 0x0000_0100_0000_01b3nat) % 0x1_0000_0000_0000_0000nat == 0x081d_4519_1779_48f1nat);
    lemma_mixed(bytes, 2, 0x08a9_5f07_b550_50a7u64, 0x08a9_5f07_b550_50cbu64, 0x081d_4519_1779_48f1u64);
    assert((0x081d_4519_1779_489enat * 0x0000_0100_0000_01b3nat) % 0x1_0000_0000_0000_0000nat == 0x4305_07a2_e316_647anat);
    lemma_mixed(bytes, 3, 0x081d_4519_1779_48f1u64, 0x081d_4519_1779_489eu64, 0x4305_07a2_e316_647au64);
    assert((0x4305_07a2_e316_6414nat * 0x0000_0100_0000_01b3nat) % 0x1_0000_0000_0000_0000nat == 0xf7f0_0dc7_df0c_0dfcnat);
    lemma_mixed(bytes, 4, 0x4305_07a2_e316_647au64, 0x4305_07a2_e316_6414u64, 0xf7f0_0dc7_df0c_0dfcu64);
    assert((0xf7f0_0dc7_df0c_0dc6nat * 0x0000_0100_0000_01b3nat) % 0x1_0000_0000_0000_0000nat == 0x58f5_30a0_017b_6772nat);
    lemma_mixed(bytes, 5, 0xf7f0_0dc7_df0c_0dfcu64, 0xf7f0_0dc7_df0c_0dc6u64, 0x58f5_30a0_017b_6772u64);
    assert((0x58f5_30a0_017b_6748nat * 0x0000_0100_0000_01b3nat) % 0x1_0000_0000_0000_0000nat == 0xa408_e7e2_84b0_7f58nat);
    lemma_mixed(bytes, 6, 0x58f5_30a0_017b_6772u64, 0x58f5_30a0_017b_6748u64, 0xa408_e7e2_84b0_7f58u64);
    assert((0xa408_e7e2_84b0_7f3anat * 0x0000_0100_0000_01b3nat) % 0x1_0000_0000_0000_0000nat == 0x6ba1_3fe7_77e8_2f8enat);
    lemma_mixed(bytes, 7, 0xa408_e7e2_84b0_7f58u64, 0xa408_e7e2_84b0_7f3au64, 0x6ba1_3fe7_77e8_2f8eu64);
}

/// The hash of their first sixteen bytes.
proof fn lemma_prefix_second(bytes: Seq<u8>)
    requires
        bytes.len() >= 16,
        hash_of_bytes(bytes.subrange(0, 8)) == 0x6ba1_3fe7_77e8_2f8eu64,
        bytes[8] == 0x61u8,
        bytes[9] == 0x73u8,
        bytes[10] == 0x65u8,
        bytes[11] == 0x5fu8,
        bytes[12] == 0x63u8,
        bytes[13] == 0x6fu8,
        bytes[14] == 0x6du8,
        bytes[15] == 0x70u8,
    ensures
        hash_of_bytes(bytes.subrange(0, 16)) == 0x0459_b605_6a78_d415u64,
{
    assert(
        0x6ba1_3fe7_77e8_2f8eu64 ^ 0x61u64 == 0x6ba1_3fe7_77e8_2fefu64
        && 0xcb2f_8550_bf89_731du64 ^ 0x73u64 == 0xcb2f_8550_bf89_736eu64
        && 0xcb32_f635_768f_23eau64 ^ 0x65u64 == 0xcb32_f635_768f_238fu64
        && 0xd6bb_ebd8_7539_6bfdu64 ^ 0x5fu64 == 0xd6bb_ebd8_7539_6ba2u64
        && 0x1abd_62cf_3091_e446u64 ^ 0x63u64 == 0x1abd_62cf_3091_e425u64
        && 0x01b3_0b0f_87e6_aadfu64 ^ 0x6fu64 == 0x01b3_0b0f_87e6_aab0u64
        && 0xc9e6_7b63_ecf4_0910u64 ^ 0x6du64 == 0xc9e6_7b63_ecf4_097du64
        && 0x06ad_27cb_a2ac_1f67u64 ^ 0x70u64 == 0x06ad_27cb_a2ac_1f17u64
    ) by (bit_vector);
    assert((0x6ba1_3fe7_77e8_2fefnat * 0x0000_0100_0000_01b3nat) % 0x1_0000_0000_0000_0000nat == 0xcb2f_8550_bf89_731dnat);
    lemma_mixed(bytes, 8, 0x6ba1_3fe7_77e8_2f8eu64, 0x6ba1_3fe7_77e8_2fefu64, 0xcb2f_8550_bf89_731du64);
    assert((0xcb2f_8550_bf89_736enat * 0x0000_0100_0000_01b3nat) % 0x1_0000_0000_0000_0000nat == 0xcb32_f635_768f_23eanat);
    lemma_mixed(bytes, 9, 0xcb2f_8550_bf89_731du64, 0xcb2f_8550_bf89_736eu64, 0xcb32_f635_768f_23eau64);
    assert((0xcb32_f635_768f_238fnat * 0x0000_0100_0000_01b3nat) % 0x1_0000_0000_0000_0000nat == 0xd6bb_ebd8_7539_6bfdnat);
    lemma_mixed(bytes, 10, 0xcb32_f635_768f_23eau64, 0xcb32_f635_768f_238fu64, 0xd6bb_ebd8_7539_6bfdu64);
    assert((0xd6bb_ebd8_7539_6ba2nat * 0x0000_0100_0000_01b3nat) % 0x1_0000_0000_0000_0000nat == 0x1abd_62cf_3091_e446nat);
    lemma_mixed(bytes, 11, 0xd6bb_ebd8_7539_6bfdu64, 0xd6bb_ebd8_7539_6ba2u64, 0x1abd_62cf_3091_e446u64);
    assert((0x1abd_62cf_3091_e425nat * 0x0000_0100_0000_01b3nat) % 0x1_0000_0000_0000_0000nat == 0x01b3_0b0f_87e6_aadfnat);
    lemma_mixed(bytes, 12, 0x1abd_62cf_3091_e446u64, 0x1abd_62cf_3091_e425u64, 0x01b3_0b0f_87e6_aadfu64);
    assert((0x01b3_0b0f_87e6_aab0nat * 0x0000_0100_0000_01b3nat) % 0x1_0000_0000_0000_0000nat == 0xc9e6_7b63_ecf4_0910nat);
    lemma_mixed(bytes, 13, 0x01b3_0b0f_87e6_aadfu64, 0x01b3_0b0f_87e6_aab0u64, 0xc9e6_7b63_ecf4_0910u64);
    assert((0xc9e6_7b63_ecf4_097dnat * 0x0000_0100_0000_01b3nat) % 0x1_0000_0000_0000_0000nat == 0x06ad_27cb_a2ac_1f67nat);
    lemma_mixed(bytes, 14, 0xc9e6_7b63_ecf4_0910u64, 0xc9e6_7b63_ecf4_097du64, 0x06ad_27cb_a2ac_1f67u64);
    assert((0x06ad_27cb_a2ac_1f17nat * 0x0000_0100_0000_01b3nat) % 0x1_0000_0000_0000_0000nat == 0x0459_b605_6a78_d415nat);
    lemma_mixed(bytes, 15, 0x06ad_27cb_a2ac_1f67u64, 0x06ad_27cb_a2ac_1f17u64, 0x0459_b605_6a78_d415u64);
}

/// The hash of what the names of the built-in types begin with.
proof fn lemma_prefix_third(bytes: Seq<u8>)
    requires
        bytes.len() >= 24,
        hash_of_bytes(bytes.subrange(0, 16)) == 0x0459_b605_6a78_d415u64,
        bytes[16] == 0x6fu8,
        bytes[17] == 0x6eu8,
        bytes[18] == 0x65u8,
        bytes[19] == 0x6eu8,
        bytes[20] == 0x74u8,
        bytes[21] == 0x73u8,
        bytes[22] == 0x3au8,
        bytes[23] == 0x3au8,
    ensures
        hash_of_bytes(bytes.subrange(0, 24)) == 0x0805_6e2f_9d76_5a66u64,
{
    assert(
        0x0459_b605_6a78_d415u64 ^ 0x6fu64 == 0x0459_b605_6a78_d47au64
        && 0xdd44_c533_eb51_0b4eu64 ^ 0x6eu64 == 0xdd44_c533_eb51_0b20u64
        && 0x4ce6_3738_dab5_e760u64 ^ 0x65u64 == 0x4ce6_3738_dab5_e705u64
        && 0x6116_da9b_a317_8d7fu64 ^ 0x6eu64 == 0x6116_da9b_a317_8d11u64
        && 0x1162_8776_2104_b3e3u64 ^ 0x74u64 == 0x1162_8776_2104_b397u64
        && 0x8f1f_c4ba_1afd_2995u64 ^ 0x73u64 == 0x8f1f_c4ba_1afd_29e6u64
        && 0x3025_2e3b_dc2e_31d2u64 ^ 0x3au64 == 0x3025_2e3b_dc2e_31e8u64
        && 0xfd5f_77b7_227e_cd38u64 ^ 0x3au64 == 0xfd5f_77b7_227e_cd02u64
    ) by (bit_vector);
    assert((0x0459_b605_6a78_d47anat * 0x0000_0100_0000_01b3nat) % 0x1_0000_0000_0000_0000nat == 0xdd44_c533_eb51_0b4enat);
    lemma_mixed(bytes, 16, 0x0459_b605_6a78_d415u64, 0x0459_b605_6a78_d47au64, 0xdd44_c533_eb51_0b4eu64);
    assert((0xdd44_c533_eb51_0b20nat * 0x0000_0100_0000_01b3nat) % 0x1_0000_0000_0000_0000nat == 0x4ce6_3738_dab5_e760nat);
    lemma_mixed(bytes, 17, 0xdd44_c533_eb51_0b4eu64, 0xdd44_c533_eb51_0b20u64, 0x4ce6_3738_dab5_e760u64);
    assert((0x4ce6_3738_dab5_e705nat * 0x0000_0100_0000_01b3nat) % 0x1_0000_0000_0000_0000nat == 0x6116_da9b_a317_8d7fnat);
    lemma_mixed(bytes, 18, 0x4ce6_3738_dab5_e760u64, 0x4ce6_3738_dab5_e705u64, 0x6116_da9b_a317_8d7fu64);
    assert((0x6116_da9b_a317_8d11nat * 0x0000_0100_0000_01b3nat) % 0x1_0000_0000_0000_0000nat == 0x1162_8776_2104_b3e3nat);
    lemma_mixed(bytes, 19, 0x6116_da9b_a317_8d7fu64, 0x6116_da9b_a317_8d11u64, 0x1162_8776_2104_b3e3u64);
    assert((0x1162_8776_2104_b397nat * 0x0000_0100_0000_01b3nat) % 0x1_0000_0000_0000_0000nat == 0x8f1f_c4ba_1afd_2995nat);
    lemma_mixed(bytes, 20, 0x1162_8776_2104_b3e3u64, 0x1162_8776_2104_b397u64, 0x8f1f_c4ba_1afd_2995u64);
    assert((0x8f1f_c4ba_1afd_29e6nat * 0x0000_0100_0000_01b3nat) % 0x1_0000_0000_0000_0000nat == 0x3025_2e3b_dc2e_31d2nat);
    lemma_mixed(bytes, 21, 0x8f1f_c4ba_1afd_2995u64, 0x8f1f_c4ba_1afd_29e6u64, 0x3025_2e3b_dc2e_31d2u64);
    assert((0x3025_2e3b_dc2e_31e8nat * 0x0000_0100_0000_01b3nat) % 0x1_0000_0000_0000_0000nat == 0xfd5f_77b7_227e_cd38nat);
    lemma_mixed(bytes, 22, 0x3025_2e3b_dc2e_31d2u64, 0x3025_2e3b_dc2e_31e8u64, 0xfd5f_77b7_227e_cd38u64);
    assert((0xfd5f_77b7_227e_cd02nat * 0x0000_0100_0000_01b3nat) % 0x1_0000_0000_0000_0000nat == 0x0805_6e2f_9d76_5a66nat);
    lemma_mixed(bytes, 23, 0xfd5f_77b7_227e_cd38u64, 0xfd5f_77b7_227e_cd02u64, 0x0805_6e2f_9d76_5a66u64);
}

/// The hash of the name of `Position`, from the hash of what it begins with.
proof fn lemma_rest_of_position(bytes: Seq<u8>)
    requires
        bytes.len() >= 32,
        hash_of_bytes(bytes.subrange(0, 24)) == 0x0805_6e2f_9d76_5a66u64,
        bytes[24] == 0x50u8,
        bytes[25] == 0x6fu8,
        bytes[26] == 0x73u8,
        bytes[27] == 0x69u8,
        bytes[28] == 0x74u8,
        bytes[29] == 0x69u8,
        bytes[30] == 0x6fu8,
        bytes[31] == 0x6eu8,
    ensures
        hash_of_bytes(bytes.subrange(0, 32)) == 0x1130_892f_9afe_2e31u64,
{
    assert(
        0x0805_6e2f_9d76_5a66u64 ^ 0x50u64 == 0x0805_6e2f_9d76_5a36u64
        && 0x1794_70e8_901b_49c2u64 ^ 0x6fu64 == 0x1794_70e8_901b_49adu64
        && 0x2c85_882c_de5e_30f7u64 ^ 0x73u64 == 0x2c85_882c_de5e_3084u64
        && 0x0516_e83d_da0c_704cu64 ^ 0x69u64 == 0x0516_e83d_da0c_7025u64
        && 0xb25c_c619_8322_8edfu64 ^ 0x74u64 == 0xb25c_c619_8322_8eabu64
        && 0x3633_4859_d3b8_6c91u64 ^ 0x69u64 == 0x3633_4859_d3b8_6cf8u64
        && 0xd190_e8a2_c261_2968u64 ^ 0x6fu64 == 0xd190_e8a2_c261_2907u64
        && 0x7a64_5390_4b18_b6e5u64 ^ 0x6eu64 == 0x7a64_5390_4b18_b68bu64
    ) by (bit_vector);
    assert((0x0805_6e2f_9d76_5a36nat * 0x0000_0100_0000_01b3nat) % 0x1_0000_0000_0000_0000nat == 0x1794_70e8_901b_49c2nat);
    lemma_mixed(bytes, 24, 0x0805_6e2f_9d76_5a66u64, 0x0805_6e2f_9d76_5a36u64, 0x1794_70e8_901b_49c2u64);
    assert((0x1794_70e8_901b_49adnat * 0x0000_0100_0000_01b3nat) % 0x1_0000_0000_0000_0000nat == 0x2c85_882c_de5e_30f7nat);
    lemma_mixed(bytes, 25, 0x1794_70e8_901b_49c2u64, 0x1794_70e8_901b_49adu64, 0x2c85_882c_de5e_30f7u64);
    assert((0x2c85_882c_de5e_3084nat * 0x0000_0100_0000_01b3nat) % 0x1_0000_0000_0000_0000nat == 0x0516_e83d_da0c_704cnat);
    lemma_mixed(bytes, 26, 0x2c85_882c_de5e_30f7u64, 0x2c85_882c_de5e_3084u64, 0x0516_e83d_da0c_704cu64);
    assert((0x0516_e83d_da0c_7025nat * 0x0000_0100_0000_01b3nat) % 0x1_0000_0000_0000_0000nat == 0xb25c_c619_8322_8edfnat);
    lemma_mixed(bytes, 27, 0x0516_e83d_da0c_704cu64, 0x0516_e83d_da0c_7025u64, 0xb25c_c619_8322_8edfu64);
    assert((0xb25c_c619_8322_8eabnat * 0x0000_0100_0000_01b3nat) % 0x1_0000_0000_0000_0000nat == 0x3633_4859_d3b8_6c91nat);
    lemma_mixed(bytes, 28, 0xb25c_c619_8322_8edfu64, 0xb25c_c619_8322_8eabu64, 0x3633_4859_d3b8_6c91u64);
    assert((0x3633_4859_d3b8_6cf8nat * 0x0000_0100_0000_01b3nat) % 0x1_0000_0000_0000_0000nat == 0xd190_e8a2_c261_2968nat);
    lemma_mixed(bytes, 29, 0x3633_4859_d3b8_6c91u64, 0x3633_4859_d3b8_6cf8u64, 0xd190_e8a2_c261_2968u64);
    assert((0xd190_e8a2_c261_2907nat * 0x0000_0100_0000_01b3nat) % 0x1_0000_0000_0000_0000nat == 0x7a64_5390_4b18_b6e5nat);
    lemma_mixed(bytes, 30, 0xd190_e8a2_c261_2968u64, 0xd190_e8a2_c261_2907u64, 0x7a64_5390_4b18_b6e5u64);
    assert((0x7a64_5390_4b18_b68bnat * 0x0000_0100_0000_01b3nat) % 0x1_0000_0000_0000_0000nat == 0x1130_892f_9afe_2e31nat);
    lemma_mixed(bytes, 31, 0x7a64_5390_4b18_b6e5u64, 0x7a64_5390_4b18_b68bu64, 0x1130_892f_9afe_2e31u64);
}

/// The hash of the name of `Name`, from the hash of what it begins with.
proof fn lemma_rest_of_name(bytes: Seq<u8>)
    requires
        bytes.len() >= 28,
        hash_of_bytes(bytes.subrange(0, 24)) == 0x0805_6e2f_9d76_5a66u64,
        bytes[24] == 0x4eu8,
        bytes[25] == 0x61u8,
        bytes[26] == 0x6du8,
        bytes[27] == 0x65u8,
    ensures
        hash_of_bytes(bytes.subrange(0, 28)) == 0x71d9_2fa3_614a_b565u64,
{
    assert(
        0x0805_6e2f_9d76_5a66u64 ^ 0x4eu64 == 0x0805_6e2f_9d76_5a28u64
        && 0x1794_62e8_901b_31f8u64 ^ 0x61u64 == 0x1794_62e8_901b_3199u64
        && 0x2c55_aa2c_de35_46fbu64 ^ 0x6du64 == 0x2c55_aa2c_de35_4696u64
        && 0x8ad6_c03d_9486_f0e2u64 ^ 0x65u64 == 0x8ad6_c03d_9486_f087u64
    ) by (bit_vector);
    assert((0x0805_6e2f_9d76_5a28nat * 0x0000_0100_0000_01b3nat) % 0x1_0000_0000_0000_0000nat == 0x1794_62e8_901b_31f8nat);
    lemma_mixed(bytes, 24, 0x0805_6e2f_9d76_5a66u64, 0x0805_6e2f_9d76_5a28u64, 0x1794_62e8_901b_31f8u64);
    assert((0x1794_62e8_901b_3199nat * 0x0000_0100_0000_01b3nat) % 0x1_0000_0000_0000_0000nat == 0x2c55_aa2c_de35_46fbnat);
    lemma_mixed(bytes, 25, 0x1794_62e8_901b_31f8u64, 0x1794_62e8_901b_3199u64, 0x2c55_aa2c_de35_46fbu64);
    assert((0x2c55_aa2c_de35_4696nat * 0x0000_0100_0000_01b3nat) % 0x1_0000_0000_0000_0000nat == 0x8ad6_c03d_9486_f0e2nat);
    lemma_mixed(bytes, 26, 0x2c55_aa2c_de35_46fbu64, 0x2c55_aa2c_de35_4696u64, 0x8ad6_c03d_9486_f0e2u64);
    assert((0x8ad6_c03d_9486_f087nat * 0x0000_0100_0000_01b3nat) % 0x1_0000_0000_0000_0000nat == 0x71d9_2fa3_614a_b565nat);
    lemma_mixed(bytes, 27, 0x8ad6_c03d_9486_f0e2u64, 0x8ad6_c03d_9486_f087u64, 0x71d9_2fa3_614a_b565u64);
}

/// The hash of the name of `Player`, from the hash of what it begins with.
proof fn lemma_rest_of_player(bytes: Seq<u8>)
    requires
        bytes.len() >= 30,
        hash_of_bytes(bytes.subrange(0, 24)) == 0x0805_6e2f_9d76_5a66u64,
        bytes[24] == 0x50u8,
        bytes[25] == 0x6cu8,
        bytes[26] == 0x61u8,
        bytes[27] == 0x79u8,
        bytes[28] == 0x65u8,
        bytes[29] == 0x72u8,
    ensures
        hash_of_bytes(bytes.subrange(0, 30)) == 0x2180_c79d_d4aa_78afu64,
{
    assert(
        0x0805_6e2f_9d76_5a66u64 ^ 0x50u64 == 0x0805_6e2f_9d76_5a36u64
        && 0x1794_70e8_901b_49c2u64 ^ 0x6cu64 == 0x1794_70e8_901b_49aeu64
        && 0x2c85_892c_de5e_32aau64 ^ 0x61u64 == 0x2c85_892c_de5e_32cbu64
        && 0x051a_e23d_da10_4ef1u64 ^ 0x79u64 == 0x051a_e23d_da10_4e88u64
        && 0xbcfc_f719_89b5_7118u64 ^ 0x65u64 == 0xbcfc_f719_89b5_717du64
        && 0xd749_5d64_ff4f_d767u64 ^ 0x72u64 == 0xd749_5d64_ff4f_d715u64
    ) by (bit_vector);
    assert((0x0805_6e2f_9d76_5a36nat * 0x0000_0100_0000_01b3nat) % 0x1_0000_0000_0000_0000nat == 0x1794_70e8_901b_49c2nat);
    lemma_mixed(bytes, 24, 0x0805_6e2f_9d76_5a66u64, 0x0805_6e2f_9d76_5a36u64, 0x1794_70e8_901b_49c2u64);
    assert((0x1794_70e8_901b_49aenat * 0x0000_0100_0000_01b3nat) % 0x1_0000_0000_0000_0000nat == 0x2c85_892c_de5e_32aanat);
    lemma_mixed(bytes, 25, 0x1794_70e8_901b_49c2u64, 0x1794_70e8_901b_49aeu64, 0x2c85_892c_de5e_32aau64);
    assert((0x2c85_892c_de5e_32cbnat * 0x0000_0100_0000_01b3nat) % 0x1_0000_0000_0000_0000nat == 0x051a_e23d_da10_4ef1nat);
    lemma_mixed(bytes, 26, 0x2c85_892c_de5e_32aau64, 0x2c85_892c_de5e_32cbu64, 0x051a_e23d_da10_4ef1u64);
    assert((0x051a_e23d_da10_4e88nat * 0x0000_0100_0000_01b3nat) % 0x1_0000_0000_0000_0000nat == 0xbcfc_f719_89b5_7118nat);
    lemma_mixed(bytes, 27, 0x051a_e23d_da10_4ef1u64, 0x051a_e23d_da10_4e88u64, 0xbcfc_f719_89b5_7118u64);
    assert((0xbcfc_f719_89b5_717dnat * 0x0000_0100_0000_01b3nat) % 0x1_0000_0000_0000_0000nat == 0xd749_5d64_ff4f_d767nat);
    lemma_mixed(bytes, 28, 0xbcfc_f719_89b5_7118u64, 0xbcfc_f719_89b5_717du64, 0xd749_5d64_ff4f_d767u64);
    assert((0xd749_5d64_ff4f_d715nat * 0x0000_0100_0000_01b3nat) % 0x1_0000_0000_0000_0000nat == 0x2180_c79d_d4aa_78afnat);
    lemma_mixed(bytes, 29, 0xd749_5d64_ff4f_d767u64, 0xd749_5d64_ff4f_d715u64, 0x2180_c79d_d4aa_78afu64);
}

/// The hash of the name of `Children`, from the hash of what it begins with.
proof fn lemma_rest_of_children(bytes: Seq<u8>)
    requires
        bytes.len() >= 32,
        hash_of_bytes(bytes.subrange(0, 24)) == 0x0805_6e2f_9d76_5a66u64,
        bytes[24] == 0x43u8,
        bytes[25] == 0x68u8,
        bytes[26] == 0x69u8,
        bytes[27] == 0x6cu8,
        bytes[28] == 0x64u8,
        bytes[29] == 0x72u8,
        bytes[30] == 0x65u8,
        bytes[31] == 0x6eu8,
    ensures
        hash_of_bytes(bytes.subrange(0, 32)) == 0x88bb_373f_12b3_4eb1u64,
{
    assert(
        0x0805_6e2f_9d76_5a66u64 ^ 0x43u64 == 0x0805_6e2f_9d76_5a25u64
        && 0x1794_5fe8_901b_2cdfu64 ^ 0x68u64 == 0x1794_5fe8_901b_2cb7u64
        && 0x2c4b_af2c_de2c_faf5u64 ^ 0x69u64 == 0x2c4b_af2c_de2c_fa9cu64
        && 0x7195_453d_866d_d714u64 ^ 0x6cu64 == 0x7195_453d_866d_d778u64
        && 0x6e7c_1f8b_6ca5_20e8u64 ^ 0x64u64 == 0x6e7c_1f8b_6ca5_208cu64
        && 0x620a_25e9_9c96_4de4u64 ^ 0x72u64 == 0x620a_25e9_9c96_4d96u64
        && 0x2d8c_01f5_1365_d5e2u64 ^ 0x65u64 == 0x2d8c_01f5_1365_d587u64
        && 0xcabc_da6f_f609_d465u64 ^ 0x6eu64 == 0xcabc_da6f_f609_d40bu64
    ) by (bit_vector);
    assert((0x0805_6e2f_9d76_5a25nat * 0x0000_0100_0000_01b3nat) % 0x1_0000_0000_0000_0000nat == 0x1794_5fe8_901b_2cdfnat);
    lemma_mixed(bytes, 24, 0x0805_6e2f_9d76_5a66u64, 0x0805_6e2f_9d76_5a25u64, 0x1794_5fe8_901b_2cdfu64);
    assert((0x1794_5fe8_901b_2cb7nat * 0x0000_0100_0000_01b3nat) % 0x1_0000_0000_0000_0000nat == 0x2c4b_af2c_de2c_faf5nat);
    lemma_mixed(bytes, 25, 0x1794_5fe8_901b_2cdfu64, 0x1794_5fe8_901b_2cb7u64, 0x2c4b_af2c_de2c_faf5u64);
    assert((0x2c4b_af2c_de2c_fa9cnat * 0x0000_0100_0000_01b3nat) % 0x1_0000_0000_0000_0000nat == 0x7195_453d_866d_d714nat);
    lemma_mixed(bytes, 26, 0x2c4b_af2c_de2c_faf5u64, 0x2c4b_af2c_de2c_fa9cu64, 0x7195_453d_866d_d714u64);
    assert((0x7195_453d_866d_d778nat * 0x0000_0100_0000_01b3nat) % 0x1_0000_0000_0000_0000nat == 0x6e7c_1f8b_6ca5_20e8nat);
    lemma_mixed(bytes, 27, 0x7195_453d_866d_d714u64, 0x7195_453d_866d_d778u64, 0x6e7c_1f8b_6ca5_20e8u64);
    assert((0x6e7c_1f8b_6ca5_208cnat * 0x0000_0100_0000_01b3nat) % 0x1_0000_0000_0000_0000nat == 0x620a_25e9_9c96_4de4nat);
    lemma_mixed(bytes, 28, 0x6e7c_1f8b_6ca5_20e8u64, 0x6e7c_1f8b_6ca5_208cu64, 0x620a_25e9_9c96_4de4u64);
    assert((0x620a_25e9_9c96_4d96nat * 0x0000_0100_0000_01b3nat) % 0x1_0000_0000_0000_0000nat == 0x2d8c_01f5_1365_d5e2nat);
    lemma_mixed(bytes, 29, 0x620a_25e9_9c96_4de4u64, 0x620a_25e9_9c96_4d96u64, 0x2d8c_01f5_1365_d5e2u64);
    assert((0x2d8c_01f5_1365_d587nat * 0x0000_0100_0000_01b3nat) % 0x1_0000_0000_0000_0000nat == 0xcabc_da6f_f609_d465nat);
    lemma_mixed(bytes, 30, 0x2d8c_01f5_1365_d5e2u64, 0x2d8c_01f5_1365_d587u64, 0xcabc_da6f_f609_d465u64);
    assert((0xcabc_da6f_f609_d40bnat * 0x0000_0100_0000_01b3nat) % 0x1_0000_0000_0000_0000nat == 0x88bb_373f_12b3_4eb1nat);
    lemma_mixed(bytes, 31, 0xcabc_da6f_f609_d465u64, 0xcabc_da6f_f609_d40bu64, 0x88bb_373f_12b3_4eb1u64);
}

/// The hash of the name of `Parent`, from the hash of what it begins with.
proof fn lemma_rest_of_parent(bytes: Seq<u8>)
    requires
        bytes.len() >= 30,
        hash_of_bytes(bytes.subrange(0, 24)) == 0x0805_6e2f_9d76_5a66u64,
        bytes[24] == 0x50u8,
        bytes[25] == 0x61u8,
        bytes[26] == 0x72u8,
        bytes[27] == 0x65u8,
        bytes[28] == 0x6eu8,
        bytes[29] == 0x74u8,
    ensures
        hash_of_bytes(bytes.subrange(0, 30)) == 0xf499_d424_f837_f046u64,
{
    assert(
        0x0805_6e2f_9d76_5a66u64 ^ 0x50u64 == 0x0805_6e2f_9d76_5a36u64
        && 0x1794_70e8_901b_49c2u64 ^ 0x61u64 == 0x1794_70e8_901b_49a3u64
        && 0x2c85_7e2c_de5e_1ff9u64 ^ 0x72u64 == 0x2c85_7e2c_de5e_1f8bu64
        && 0x04f4_f13d_d9ef_9931u64 ^ 0x65u64 == 0x04f4_f13d_d9ef_9954u64
        && 0x5bcf_4019_5221_89bcu64 ^ 0x6eu64 == 0x5bcf_4019_5221_89d2u64
        && 0x22b3_bd06_8efd_2fd6u64 ^ 0x74u64 == 0x22b3_bd06_8efd_2fa2u64
    ) by (bit_vector);
    assert((0x0805_6e2f_9d76_5a36nat * 0x0000_0100_0000_01b3nat) % 0x1_0000_0000_0000_0000nat == 0x1794_70e8_901b_49c2nat);
    lemma_mixed(bytes, 24, 0x0805_6e2f_9d76_5a66u64, 0x0805_6e2f_9d76_5a36u64, 0x1794_70e8_901b_49c2u64);
    assert((0x1794_70e8_901b_49a3nat * 0x0000_0100_0000_01b3nat) % 0x1_0000_0000_0000_0000nat == 0x2c85_7e2c_de5e_1ff9nat);
    lemma_mixed(bytes, 25, 0x1794_70e8_901b_49c2u64, 0x1794_70e8_901b_49a3u64, 0x2c85_7e2c_de5e_1ff9u64);
    assert((0x2c85_7e2c_de5e_1f8bnat * 0x0000_0100_0000_01b3nat) % 0x1_0000_0000_0000_0000nat == 0x04f4_f13d_d9ef_9931nat);
    lemma_mixed(bytes, 26, 0x2c85_7e2c_de5e_1ff9u64, 0x2c85_7e2c_de5e_1f8bu64, 0x04f4_f13d_d9ef_9931u64);
    assert((0x04f4_f13d_d9ef_9954nat * 0x0000_0100_0000_01b3nat) % 0x1_0000_0000_0000_0000nat == 0x5bcf_4019_5221_89bcnat);
    lemma_mixed(bytes, 27, 0x04f4_f13d_d9ef_9931u64, 0x04f4_f13d_d9ef_9954u64, 0x5bcf_4019_5221_89bcu64);
    assert((0x5bcf_4019_5221_89d2nat * 0x0000_0100_0000_01b3nat) % 0x1_0000_0000_0000_0000nat == 0x22b3_bd06_8efd_2fd6nat);
    lemma_mixed(bytes, 28, 0x5bcf_4019_5221_89bcu64, 0x5bcf_4019_5221_89d2u64, 0x22b3_bd06_8efd_2fd6u64);
    assert((0x22b3_bd06_8efd_2fa2nat * 0x0000_0100_0000_01b3nat) % 0x1_0000_0000_0000_0000nat == 0xf499_d424_f837_f046nat);
    lemma_mixed(bytes, 29, 0x22b3_bd06_8efd_2fd6u64, 0x22b3_bd06_8efd_2fa2u64, 0xf499_d424_f837_f046u64);
}

/// The type identifier of `Position`.
pub proof fn lemma_type_of_position()
    ensures
        type_id_of::<Position>() == ComponentTypeId(0x1130_892f_9afe_2e31u64),
{
    reveal_strlit("melon::base_components::Position");
    let chars = "melon::base_components::Position"@;
    lemma_plain_text(chars);
    let bytes = encode_utf8(chars);
    lemma_prefix_first(bytes);
    lemma_prefix_second(bytes);
    lemma_prefix_third(bytes);
    lemma_rest_of_position(bytes);
    assert(bytes.subrange(0, 32) =~= bytes);
}

/// The type identifier of `Name`.
pub proof fn lemma_type_of_name()
    ensures
        type_id_of::<Name>() == ComponentTypeId(0x71d9_2fa3_614a_b565u64),
{
    reveal_strlit("melon::base_components::Name");
    let chars = "melon::base_components::Name"@;
    lemma_plain_text(chars);
    let bytes = encode_utf8(chars);
    lemma_prefix_first(bytes);
    lemma_prefix_second(bytes);
    lemma_prefix_third(bytes);
    lemma_rest_of_name(bytes);
    assert(bytes.subrange(0, 28) =~= bytes);
}

/// The type identifier of `Player`.
pub proof fn lemma_type_of_player()
    ensures
        type_id_of::<Player>() == ComponentTypeId(0x2180_c79d_d4aa_78afu64),
{
    reveal_strlit("melon::base_components::Player");
    let chars = "melon::base_components::Player"@;
    lemma_plain_text(chars);
    let bytes = encode_utf8(chars);
    lemma_prefix_first(bytes);
    lemma_prefix_second(bytes);
    lemma_prefix_third(bytes);
    lemma_rest_of_player(bytes);
    assert(bytes.subrange(0, 30) =~= bytes);
}

/// The type identifier of `Children`.
pub proof fn lemma_type_of_children()
    ensures
        type_id_of::<Children>() == ComponentTypeId(0x88bb_373f_12b3_4eb1u64),
{
    reveal_strlit("melon::base_components::Children");
    let chars = "melon::base_components::Children"@;
    lemma_plain_text(chars);
    let bytes = encode_utf8(chars);
    lemma_prefix_first(bytes);
    lemma_prefix_second(bytes);
    lemma_prefix_third(bytes);
    lemma_rest_of_children(bytes);
    assert(bytes.subrange(0, 32) =~= bytes);
}

/// The type identifier of `Parent`.
pub proof fn lemma_type_of_parent()
    ensures
        type_id_of::<Parent>() == ComponentTypeId(0xf499_d424_f837_f046u64),
{
    reveal_strlit("melon::base_components::Parent");
    let chars = "melon::base_components::Parent"@;
    lemma_plain_text(chars);
    let bytes = encode_utf8(chars);
    lemma_prefix_first(bytes);
    lemma_prefix_second(bytes);
    lemma_prefix_third(bytes);
    lemma_rest_of_parent(bytes);
    assert(bytes.subrange(0, 30) =~= bytes);
}

/// No two of the built-in component types have the same identifier.
pub proof fn lemma_built_in_types_differ()
    ensures
        type_id_of::<Position>() != type_id_of::<Name>(),
        type_id_of::<Position>() != type_id_of::<Player>(),
        type_id_of::<Position>() != type_id_of::<Children>(),
        type_id_of::<Position>() != type_id_of::<Parent>(),
        type_id_of::<Name>() != type_id_of::<Player>(),
        type_id_of::<Name>() != type_id_of::<Children>(),
        type_id_of::<Name>() != type_id_of::<Parent>(),
        type_id_of::<Player>() != type_id_of::<Children>(),
        type_id_of::<Player>() != type_id_of::<Parent>(),
        type_id_of::<Children>() != type_id_of::<Parent>(),
{
    lemma_type_of_position();
    lemma_type_of_name();
    lemma_type_of_player();
    lemma_type_of_children();
    lemma_type_of_parent();
}

} // verus!
