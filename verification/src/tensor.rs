//! Tensor descriptions: data types, shapes and the tensor-info records of a
//! GGUF file, with their byte encoding.

use crate::format::{
    enc_string, lemma_occurs_join, lemma_occurs_same_len, lemma_occurs_split, lemma_u32_bytes,
    lemma_u64_bytes, occurs_at, parse_string, read_u32, read_u64, write_string, write_u32,
    write_u64, GgufError, MAX_STRING_LEN,
};
use vstd::bytes::*;
use vstd::prelude::*;
use vstd::utf8::*;

verus! {

broadcast use vstd::seq::group_seq_axioms;

/// Largest dimension a tensor shape may have.
pub const MAX_DIMENSION: u64 = 1_000_000_000;

/// Most dimensions a tensor may have.
pub const MAX_DIMS: u32 = 8;

/// Data types of tensors, in the order of their GGUF type tags.
#[allow(non_camel_case_types)]
#[derive(Clone, Copy, Debug, PartialEq, Eq, Structural)]
pub enum TensorType {
    F32,
    F16,
    Q4_0,
    Q4_1,
    Q4_2,
    Q4_3,
    Q5_0,
    Q5_1,
    Q8_0,
    Q8_1,
    Q2_K,
    Q3_K,
    Q4_K,
    Q5_K,
    Q6_K,
    Q8_K,
    IQ2_XXS,
    IQ2_XS,
    IQ3_XXS,
    IQ1_S,
    IQ4_NL,
    IQ3_S,
    IQ2_S,
    IQ4_XS,
    I32,
    I64,
    F64,
    IQ1_M,
    BF16,
    IQ4_UNI,
    I8,
    I16,
}

impl TensorType {
    /// The tag written in the file for this type.
    pub open spec fn spec_code(self) -> u32 {
        match self {
            TensorType::F32 => 0,
            TensorType::F16 => 1,
            TensorType::Q4_0 => 2,
            TensorType::Q4_1 => 3,
            TensorType::Q4_2 => 4,
            TensorType::Q4_3 => 5,
            TensorType::Q5_0 => 6,
            TensorType::Q5_1 => 7,
            TensorType::Q8_0 => 8,
            TensorType::Q8_1 => 9,
            TensorType::Q2_K => 10,
            TensorType::Q3_K => 11,
            TensorType::Q4_K => 12,
            TensorType::Q5_K => 13,
            TensorType::Q6_K => 14,
            TensorType::Q8_K => 15,
            TensorType::IQ2_XXS => 16,
            TensorType::IQ2_XS => 17,
            TensorType::IQ3_XXS => 18,
            TensorType::IQ1_S => 19,
            TensorType::IQ4_NL => 20,
            TensorType::IQ3_S => 21,
            TensorType::IQ2_S => 22,
            TensorType::IQ4_XS => 23,
            TensorType::I32 => 24,
            TensorType::I64 => 25,
            TensorType::F64 => 26,
            TensorType::IQ1_M => 27,
            TensorType::BF16 => 28,
            TensorType::IQ4_UNI => 29,
            TensorType::I8 => 30,
            TensorType::I16 => 31,
        }
    }

    /// The type whose tag is `c`, if any.
    pub open spec fn spec_from_code(c: u32) -> Option<TensorType> {
        match c {
            0 => Some(TensorType::F32),
            1 => Some(TensorType::F16),
            2 => Some(TensorType::Q4_0),
            3 => Some(TensorType::Q4_1),
            4 => Some(TensorType::Q4_2),
            5 => Some(TensorType::Q4_3),
            6 => Some(TensorType::Q5_0),
            7 => Some(TensorType::Q5_1),
            8 => Some(TensorType::Q8_0),
            9 => Some(TensorType::Q8_1),
            10 => Some(TensorType::Q2_K),
            11 => Some(TensorType::Q3_K),
            12 => Some(TensorType::Q4_K),
            13 => Some(TensorType::Q5_K),
            14 => Some(TensorType::Q6_K),
            15 => Some(TensorType::Q8_K),
            16 => Some(TensorType::IQ2_XXS),
            17 => Some(TensorType::IQ2_XS),
            18 => Some(TensorType::IQ3_XXS),
            19 => Some(TensorType::IQ1_S),
            20 => Some(TensorType::IQ4_NL),
            21 => Some(TensorType::IQ3_S),
            22 => Some(TensorType::IQ2_S),
            23 => Some(TensorType::IQ4_XS),
            24 => Some(TensorType::I32),
            25 => Some(TensorType::I64),
            26 => Some(TensorType::F64),
            27 => Some(TensorType::IQ1_M),
            28 => Some(TensorType::BF16),
            29 => Some(TensorType::IQ4_UNI),
            30 => Some(TensorType::I8),
            31 => Some(TensorType::I16),
            _ => None,
        }
    }

    pub fn code(&self) -> (c: u32)
        ensures
            c == self.spec_code(),
    {
        match self {
            TensorType::F32 => 0,
            TensorType::F16 => 1,
            TensorType::Q4_0 => 2,
            TensorType::Q4_1 => 3,
            TensorType::Q4_2 => 4,
            TensorType::Q4_3 => 5,
            TensorType::Q5_0 => 6,
            TensorType::Q5_1 => 7,
            TensorType::Q8_0 => 8,
            TensorType::Q8_1 => 9,
            TensorType::Q2_K => 10,
            TensorType::Q3_K => 11,
            TensorType::Q4_K => 12,
            TensorType::Q5_K => 13,
            TensorType::Q6_K => 14,
            TensorType::Q8_K => 15,
            TensorType::IQ2_XXS => 16,
            TensorType::IQ2_XS => 17,
            TensorType::IQ3_XXS => 18,
            TensorType::IQ1_S => 19,
            TensorType::IQ4_NL => 20,
            TensorType::IQ3_S => 21,
            TensorType::IQ2_S => 22,
            TensorType::IQ4_XS => 23,
            TensorType::I32 => 24,
            TensorType::I64 => 25,
            TensorType::F64 => 26,
            TensorType::IQ1_M => 27,
            TensorType::BF16 => 28,
            TensorType::IQ4_UNI => 29,
            TensorType::I8 => 30,
            TensorType::I16 => 31,
        }
    }

    pub fn from_u32(c: u32) -> (t: Option<TensorType>)
        ensures
            t == TensorType::spec_from_code(c),
            t matches Some(tt) ==> tt.spec_code() == c,
            t is None <==> c >= 32,
    {
        match c {
            0 => Some(TensorType::F32),
            1 => Some(TensorType::F16),
            2 => Some(TensorType::Q4_0),
            3 => Some(TensorType::Q4_1),
            4 => Some(TensorType::Q4_2),
            5 => Some(TensorType::Q4_3),
            6 => Some(TensorType::Q5_0),
            7 => Some(TensorType::Q5_1),
            8 => Some(TensorType::Q8_0),
            9 => Some(TensorType::Q8_1),
            10 => Some(TensorType::Q2_K),
            11 => Some(TensorType::Q3_K),
            12 => Some(TensorType::Q4_K),
            13 => Some(TensorType::Q5_K),
            14 => Some(TensorType::Q6_K),
            15 => Some(TensorType::Q8_K),
            16 => Some(TensorType::IQ2_XXS),
            17 => Some(TensorType::IQ2_XS),
            18 => Some(TensorType::IQ3_XXS),
            19 => Some(TensorType::IQ1_S),
            20 => Some(TensorType::IQ4_NL),
            21 => Some(TensorType::IQ3_S),
            22 => Some(TensorType::IQ2_S),
            23 => Some(TensorType::IQ4_XS),
            24 => Some(TensorType::I32),
            25 => Some(TensorType::I64),
            26 => Some(TensorType::F64),
            27 => Some(TensorType::IQ1_M),
            28 => Some(TensorType::BF16),
            29 => Some(TensorType::IQ4_UNI),
            30 => Some(TensorType::I8),
            31 => Some(TensorType::I16),
            _ => None,
        }
    }

    /// The display name of the type.
    pub open spec fn spec_name(self) -> Seq<char> {
        match self {
            TensorType::F32 => "F32"@,
            TensorType::F16 => "F16"@,
            TensorType::Q4_0 => "Q4_0"@,
            TensorType::Q4_1 => "Q4_1"@,
            TensorType::Q4_2 => "Q4_2"@,
            TensorType::Q4_3 => "Q4_3"@,
            TensorType::Q5_0 => "Q5_0"@,
            TensorType::Q5_1 => "Q5_1"@,
            TensorType::Q8_0 => "Q8_0"@,
            TensorType::Q8_1 => "Q8_1"@,
            TensorType::Q2_K => "Q2_K"@,
            TensorType::Q3_K => "Q3_K"@,
            TensorType::Q4_K => "Q4_K"@,
            TensorType::Q5_K => "Q5_K"@,
            TensorType::Q6_K => "Q6_K"@,
            TensorType::Q8_K => "Q8_K"@,
            TensorType::IQ2_XXS => "IQ2_XXS"@,
            TensorType::IQ2_XS => "IQ2_XS"@,
            TensorType::IQ3_XXS => "IQ3_XXS"@,
            TensorType::IQ1_S => "IQ1_S"@,
            TensorType::IQ4_NL => "IQ4_NL"@,
            TensorType::IQ3_S => "IQ3_S"@,
            TensorType::IQ2_S => "IQ2_S"@,
            TensorType::IQ4_XS => "IQ4_XS"@,
            TensorType::I32 => "I32"@,
            TensorType::I64 => "I64"@,
            TensorType::F64 => "F64"@,
            TensorType::IQ1_M => "IQ1_M"@,
            TensorType::BF16 => "BF16"@,
            TensorType::IQ4_UNI => "IQ4_UNI"@,
            TensorType::I8 => "I8"@,
            TensorType::I16 => "I16"@,
        }
    }

    pub fn name(&self) -> (s: &'static str)
        ensures
            s@ == self.spec_name(),
    {
        match self {
            TensorType::F32 => "F32",
            TensorType::F16 => "F16",
            TensorType::Q4_0 => "Q4_0",
            TensorType::Q4_1 => "Q4_1",
            TensorType::Q4_2 => "Q4_2",
            TensorType::Q4_3 => "Q4_3",
            TensorType::Q5_0 => "Q5_0",
            TensorType::Q5_1 => "Q5_1",
            TensorType::Q8_0 => "Q8_0",
            TensorType::Q8_1 => "Q8_1",
            TensorType::Q2_K => "Q2_K",
            TensorType::Q3_K => "Q3_K",
            TensorType::Q4_K => "Q4_K",
            TensorType::Q5_K => "Q5_K",
            TensorType::Q6_K => "Q6_K",
            TensorType::Q8_K => "Q8_K",
            TensorType::IQ2_XXS => "IQ2_XXS",
            TensorType::IQ2_XS => "IQ2_XS",
            TensorType::IQ3_XXS => "IQ3_XXS",
            TensorType::IQ1_S => "IQ1_S",
            TensorType::IQ4_NL => "IQ4_NL",
            TensorType::IQ3_S => "IQ3_S",
            TensorType::IQ2_S => "IQ2_S",
            TensorType::IQ4_XS => "IQ4_XS",
            TensorType::I32 => "I32",
            TensorType::I64 => "I64",
            TensorType::F64 => "F64",
            TensorType::IQ1_M => "IQ1_M",
            TensorType::BF16 => "BF16",
            TensorType::IQ4_UNI => "IQ4_UNI",
            TensorType::I8 => "I8",
            TensorType::I16 => "I16",
        }
    }

    /// Size in bytes of one element for the plain types (1 for the others).
    pub open spec fn spec_element_size(self) -> u64 {
        match self {
            TensorType::F32 | TensorType::I32 => 4,
            TensorType::F16 | TensorType::BF16 | TensorType::I16 => 2,
            TensorType::F64 | TensorType::I64 => 8,
            _ => 1,
        }
    }

    /// Number of elements in one block of a quantised type (1 otherwise).
    pub open spec fn spec_block_size(self) -> u64 {
        match self {
            TensorType::Q2_K | TensorType::Q3_K | TensorType::Q4_K | TensorType::Q5_K
            | TensorType::Q6_K | TensorType::Q8_K => 256,
            TensorType::F32 | TensorType::F16 | TensorType::BF16 | TensorType::I32
            | TensorType::I64 | TensorType::F64 | TensorType::I8 | TensorType::I16 => 1,
            _ => 32,
        }
    }

    /// Bytes taken by `n` elements of this type.  Products wrap on overflow.
    pub open spec fn spec_calculate_size(self, n: u64) -> u64 {
        let blocks = spec_div_ceil(n, self.spec_block_size());
        match self {
            TensorType::Q4_0 => blocks.wrapping_mul(18),
            TensorType::Q4_1 => blocks.wrapping_mul(20),
            TensorType::Q5_0 => blocks.wrapping_mul(22),
            TensorType::Q5_1 => blocks.wrapping_mul(24),
            TensorType::Q8_0 => blocks.wrapping_mul(34),
            TensorType::Q8_1 => blocks.wrapping_mul(36),
            TensorType::Q2_K => blocks.wrapping_mul(82),
            TensorType::Q3_K => blocks.wrapping_mul(110),
            TensorType::Q4_K => blocks.wrapping_mul(144),
            TensorType::Q5_K => blocks.wrapping_mul(176),
            TensorType::Q6_K => blocks.wrapping_mul(210),
            TensorType::Q8_K => blocks.wrapping_mul(256),
            TensorType::IQ2_XXS | TensorType::IQ2_XS | TensorType::IQ2_S => spec_div_ceil(
                n,
                8,
            ).wrapping_mul(2),
            TensorType::IQ3_XXS | TensorType::IQ3_S => spec_div_ceil(n, 8).wrapping_mul(3),
            TensorType::IQ1_S | TensorType::IQ1_M => spec_div_ceil(n, 8),
            TensorType::IQ4_NL | TensorType::IQ4_XS | TensorType::IQ4_UNI => spec_div_ceil(n, 2),
            _ => n.wrapping_mul(self.spec_element_size()),
        }
    }

    pub fn calculate_size(&self, n: u64) -> (size: u64)
        ensures
            size == self.spec_calculate_size(n),
    {
        let blocks = match self {
            TensorType::Q2_K | TensorType::Q3_K | TensorType::Q4_K | TensorType::Q5_K
            | TensorType::Q6_K | TensorType::Q8_K => div_ceil(n, 256),
            TensorType::F32 | TensorType::F16 | TensorType::BF16 | TensorType::I32
            | TensorType::I64 | TensorType::F64 | TensorType::I8 | TensorType::I16 => n,
            _ => div_ceil(n, 32),
        };
        match self {
            TensorType::Q4_0 => blocks.wrapping_mul(18),
            TensorType::Q4_1 => blocks.wrapping_mul(20),
            TensorType::Q5_0 => blocks.wrapping_mul(22),
            TensorType::Q5_1 => blocks.wrapping_mul(24),
            TensorType::Q8_0 => blocks.wrapping_mul(34),
            TensorType::Q8_1 => blocks.wrapping_mul(36),
            TensorType::Q2_K => blocks.wrapping_mul(82),
            TensorType::Q3_K => blocks.wrapping_mul(110),
            TensorType::Q4_K => blocks.wrapping_mul(144),
            TensorType::Q5_K => blocks.wrapping_mul(176),
            TensorType::Q6_K => blocks.wrapping_mul(210),
            TensorType::Q8_K => blocks.wrapping_mul(256),
            TensorType::IQ2_XXS | TensorType::IQ2_XS | TensorType::IQ2_S => div_ceil(
                n,
                8,
            ).wrapping_mul(2),
            TensorType::IQ3_XXS | TensorType::IQ3_S => div_ceil(n, 8).wrapping_mul(3),
            TensorType::IQ1_S | TensorType::IQ1_M => div_ceil(n, 8),
            TensorType::IQ4_NL | TensorType::IQ4_XS | TensorType::IQ4_UNI => div_ceil(n, 2),
            TensorType::F32 | TensorType::I32 => n.wrapping_mul(4),
            TensorType::F16 | TensorType::BF16 | TensorType::I16 => n.wrapping_mul(2),
            TensorType::F64 | TensorType::I64 => n.wrapping_mul(8),
            TensorType::I8 | TensorType::Q4_2 | TensorType::Q4_3 => n.wrapping_mul(1),
        }
    }
}

/// Law: the tensor types carry the GGUF tags (F32 = 0, F16 = 1, Q4_0 = 2,
/// …, Q4_K = 12, Q5_K = 13, Q6_K = 14, …, I16 = 31) and are shown by the
/// names of those tags; every larger tag names no type.
pub proof fn law_tensor_type_tags_and_names()
    ensures
        TensorType::spec_from_code(0) == Some(TensorType::F32) && TensorType::F32.spec_code() == 0
            && TensorType::F32.spec_name() == "F32"@,
        TensorType::spec_from_code(1) == Some(TensorType::F16) && TensorType::F16.spec_code() == 1
            && TensorType::F16.spec_name() == "F16"@,
        TensorType::spec_from_code(2) == Some(TensorType::Q4_0) && TensorType::Q4_0.spec_code() == 2
            && TensorType::Q4_0.spec_name() == "Q4_0"@,
        TensorType::spec_from_code(3) == Some(TensorType::Q4_1) && TensorType::Q4_1.spec_code() == 3
            && TensorType::Q4_1.spec_name() == "Q4_1"@,
        TensorType::spec_from_code(4) == Some(TensorType::Q4_2) && TensorType::Q4_2.spec_code() == 4
            && TensorType::Q4_2.spec_name() == "Q4_2"@,
        TensorType::spec_from_code(5) == Some(TensorType::Q4_3) && TensorType::Q4_3.spec_code() == 5
            && TensorType::Q4_3.spec_name() == "Q4_3"@,
        TensorType::spec_from_code(6) == Some(TensorType::Q5_0) && TensorType::Q5_0.spec_code() == 6
            && TensorType::Q5_0.spec_name() == "Q5_0"@,
        TensorType::spec_from_code(7) == Some(TensorType::Q5_1) && TensorType::Q5_1.spec_code() == 7
            && TensorType::Q5_1.spec_name() == "Q5_1"@,
        TensorType::spec_from_code(8) == Some(TensorType::Q8_0) && TensorType::Q8_0.spec_code() == 8
            && TensorType::Q8_0.spec_name() == "Q8_0"@,
        TensorType::spec_from_code(9) == Some(TensorType::Q8_1) && TensorType::Q8_1.spec_code() == 9
            && TensorType::Q8_1.spec_name() == "Q8_1"@,
        TensorType::spec_from_code(10) == Some(TensorType::Q2_K) && TensorType::Q2_K.spec_code() == 10
            && TensorType::Q2_K.spec_name() == "Q2_K"@,
        TensorType::spec_from_code(11) == Some(TensorType::Q3_K) && TensorType::Q3_K.spec_code() == 11
            && TensorType::Q3_K.spec_name() == "Q3_K"@,
        TensorType::spec_from_code(12) == Some(TensorType::Q4_K) && TensorType::Q4_K.spec_code() == 12
            && TensorType::Q4_K.spec_name() == "Q4_K"@,
        TensorType::spec_from_code(13) == Some(TensorType::Q5_K) && TensorType::Q5_K.spec_code() == 13
            && TensorType::Q5_K.spec_name() == "Q5_K"@,
        TensorType::spec_from_code(14) == Some(TensorType::Q6_K) && TensorType::Q6_K.spec_code() == 14
            && TensorType::Q6_K.spec_name() == "Q6_K"@,
        TensorType::spec_from_code(15) == Some(TensorType::Q8_K) && TensorType::Q8_K.spec_code() == 15
            && TensorType::Q8_K.spec_name() == "Q8_K"@,
        TensorType::spec_from_code(16) == Some(TensorType::IQ2_XXS) && TensorType::IQ2_XXS.spec_code() == 16
            && TensorType::IQ2_XXS.spec_name() == "IQ2_XXS"@,
        TensorType::spec_from_code(17) == Some(TensorType::IQ2_XS) && TensorType::IQ2_XS.spec_code() == 17
            && TensorType::IQ2_XS.spec_name() == "IQ2_XS"@,
        TensorType::spec_from_code(18) == Some(TensorType::IQ3_XXS) && TensorType::IQ3_XXS.spec_code() == 18
            && TensorType::IQ3_XXS.spec_name() == "IQ3_XXS"@,
        TensorType::spec_from_code(19) == Some(TensorType::IQ1_S) && TensorType::IQ1_S.spec_code() == 19
            && TensorType::IQ1_S.spec_name() == "IQ1_S"@,
        TensorType::spec_from_code(20) == Some(TensorType::IQ4_NL) && TensorType::IQ4_NL.spec_code() == 20
            && TensorType::IQ4_NL.spec_name() == "IQ4_NL"@,
        TensorType::spec_from_code(21) == Some(TensorType::IQ3_S) && TensorType::IQ3_S.spec_code() == 21
            && TensorType::IQ3_S.spec_name() == "IQ3_S"@,
        TensorType::spec_from_code(22) == Some(TensorType::IQ2_S) && TensorType::IQ2_S.spec_code() == 22
            && TensorType::IQ2_S.spec_name() == "IQ2_S"@,
        TensorType::spec_from_code(23) == Some(TensorType::IQ4_XS) && TensorType::IQ4_XS.spec_code() == 23
            && TensorType::IQ4_XS.spec_name() == "IQ4_XS"@,
        TensorType::spec_from_code(24) == Some(TensorType::I32) && TensorType::I32.spec_code() == 24
            && TensorType::I32.spec_name() == "I32"@,
        TensorType::spec_from_code(25) == Some(TensorType::I64) && TensorType::I64.spec_code() == 25
            && TensorType::I64.spec_name() == "I64"@,
        TensorType::spec_from_code(26) == Some(TensorType::F64) && TensorType::F64.spec_code() == 26
            && TensorType::F64.spec_name() == "F64"@,
        TensorType::spec_from_code(27) == Some(TensorType::IQ1_M) && TensorType::IQ1_M.spec_code() == 27
            && TensorType::IQ1_M.spec_name() == "IQ1_M"@,
        TensorType::spec_from_code(28) == Some(TensorType::BF16) && TensorType::BF16.spec_code() == 28
            && TensorType::BF16.spec_name() == "BF16"@,
        TensorType::spec_from_code(29) == Some(TensorType::IQ4_UNI) && TensorType::IQ4_UNI.spec_code() == 29
            && TensorType::IQ4_UNI.spec_name() == "IQ4_UNI"@,
        TensorType::spec_from_code(30) == Some(TensorType::I8) && TensorType::I8.spec_code() == 30
            && TensorType::I8.spec_name() == "I8"@,
        TensorType::spec_from_code(31) == Some(TensorType::I16) && TensorType::I16.spec_code() == 31
            && TensorType::I16.spec_name() == "I16"@,
        forall|c: u32| c > 31 ==> #[trigger] TensorType::spec_from_code(c) is None,
        forall|t: TensorType| TensorType::spec_from_code(#[trigger] t.spec_code()) == Some(t),
{
}

/// Law: the data size of a tensor, per type.  Block-quantised types take a
/// fixed number of bytes per block: Q4_0, Q4_1, Q5_0, Q5_1, Q8_0 and Q8_1
/// take 18, 20, 22, 24, 34 and 36 bytes per 32 elements; Q2_K, Q3_K, Q4_K,
/// Q5_K, Q6_K and Q8_K take 82, 110, 144, 176, 210 and 256 bytes per 256
/// elements.  IQ2 types take 2 bytes per 8 elements, IQ3 types 3, IQ1 types
/// 1, IQ4 types 1 byte per 2 elements.  Plain types take 4 (F32, I32), 2
/// (F16, BF16, I16), 8 (F64, I64) or 1 (I8, and the retired Q4_2, Q4_3)
/// bytes per element.
pub proof fn law_tensor_sizes(b: u64, n: u64)
    ensures
        b <= 0xff_ffff_ffff_ffff ==> TensorType::Q4_0.spec_calculate_size((b * 32) as u64) == b * 18,
        b <= 0xff_ffff_ffff_ffff ==> TensorType::Q4_1.spec_calculate_size((b * 32) as u64) == b * 20,
        b <= 0xff_ffff_ffff_ffff ==> TensorType::Q5_0.spec_calculate_size((b * 32) as u64) == b * 22,
        b <= 0xff_ffff_ffff_ffff ==> TensorType::Q5_1.spec_calculate_size((b * 32) as u64) == b * 24,
        b <= 0xff_ffff_ffff_ffff ==> TensorType::Q8_0.spec_calculate_size((b * 32) as u64) == b * 34,
        b <= 0xff_ffff_ffff_ffff ==> TensorType::Q8_1.spec_calculate_size((b * 32) as u64) == b * 36,
        b <= 0xff_ffff_ffff_ffff ==> TensorType::Q2_K.spec_calculate_size((b * 256) as u64) == b * 82,
        b <= 0xff_ffff_ffff_ffff ==> TensorType::Q3_K.spec_calculate_size((b * 256) as u64) == b * 110,
        b <= 0xff_ffff_ffff_ffff ==> TensorType::Q4_K.spec_calculate_size((b * 256) as u64) == b * 144,
        b <= 0xff_ffff_ffff_ffff ==> TensorType::Q5_K.spec_calculate_size((b * 256) as u64) == b * 176,
        b <= 0xff_ffff_ffff_ffff ==> TensorType::Q6_K.spec_calculate_size((b * 256) as u64) == b * 210,
        b <= 0xff_ffff_ffff_ffff ==> TensorType::Q8_K.spec_calculate_size((b * 256) as u64) == b * 256,
        b <= 0xff_ffff_ffff_ffff ==> TensorType::IQ2_XXS.spec_calculate_size((b * 8) as u64) == b * 2,
        b <= 0xff_ffff_ffff_ffff ==> TensorType::IQ2_XS.spec_calculate_size((b * 8) as u64) == b * 2,
        b <= 0xff_ffff_ffff_ffff ==> TensorType::IQ2_S.spec_calculate_size((b * 8) as u64) == b * 2,
        b <= 0xff_ffff_ffff_ffff ==> TensorType::IQ3_XXS.spec_calculate_size((b * 8) as u64) == b * 3,
        b <= 0xff_ffff_ffff_ffff ==> TensorType::IQ3_S.spec_calculate_size((b * 8) as u64) == b * 3,
        b <= 0xff_ffff_ffff_ffff ==> TensorType::IQ1_S.spec_calculate_size((b * 8) as u64) == b * 1,
        b <= 0xff_ffff_ffff_ffff ==> TensorType::IQ1_M.spec_calculate_size((b * 8) as u64) == b * 1,
        b <= 0xff_ffff_ffff_ffff ==> TensorType::IQ4_NL.spec_calculate_size((b * 2) as u64) == b * 1,
        b <= 0xff_ffff_ffff_ffff ==> TensorType::IQ4_XS.spec_calculate_size((b * 2) as u64) == b * 1,
        b <= 0xff_ffff_ffff_ffff ==> TensorType::IQ4_UNI.spec_calculate_size((b * 2) as u64) == b * 1,
        n * 4 <= u64::MAX ==> TensorType::F32.spec_calculate_size(n) == n * 4,
        n * 4 <= u64::MAX ==> TensorType::I32.spec_calculate_size(n) == n * 4,
        n * 2 <= u64::MAX ==> TensorType::F16.spec_calculate_size(n) == n * 2,
        n * 2 <= u64::MAX ==> TensorType::BF16.spec_calculate_size(n) == n * 2,
        n * 2 <= u64::MAX ==> TensorType::I16.spec_calculate_size(n) == n * 2,
        n * 8 <= u64::MAX ==> TensorType::F64.spec_calculate_size(n) == n * 8,
        n * 8 <= u64::MAX ==> TensorType::I64.spec_calculate_size(n) == n * 8,
        n * 1 <= u64::MAX ==> TensorType::I8.spec_calculate_size(n) == n * 1,
        n * 1 <= u64::MAX ==> TensorType::Q4_2.spec_calculate_size(n) == n * 1,
        n * 1 <= u64::MAX ==> TensorType::Q4_3.spec_calculate_size(n) == n * 1,
{
    assert(0xff_ffff_ffff_ffff * 256 <= u64::MAX);
}

/// `n / d` rounded up.
pub open spec fn spec_div_ceil(n: u64, d: u64) -> u64 {
    if d == 0 {
        0
    } else if n % d == 0 {
        n / d
    } else {
        (n / d + 1) as u64
    }
}

pub fn div_ceil(n: u64, d: u64) -> (q: u64)
    requires
        d > 0,
    ensures
        q == spec_div_ceil(n, d),
{
    let q = n / d;
    if n % d == 0 {
        q
    } else {
        assert(d != 1) by {
            if d == 1 {
                assert(n % 1 == 0) by (nonlinear_arith);
            }
        }
        assert(n / d <= n / 2) by (nonlinear_arith)
            requires
                d >= 2,
        ;
        q + 1
    }
}


/// The dimensions of a tensor.
#[derive(Debug, PartialEq)]
pub struct TensorShape {
    pub dimensions: Vec<u64>,
}

/// Product of the dimensions, or `None` when it does not fit in a `u64`
/// (the product is taken left to right and stops at the first overflow).
pub open spec fn checked_product(dims: Seq<u64>) -> Option<u64>
    decreases dims.len(),
{
    if dims.len() == 0 {
        Some(1)
    } else {
        match checked_product(dims.drop_last()) {
            Some(p) => if p * dims.last() <= u64::MAX {
                Some((p * dims.last()) as u64)
            } else {
                None
            },
            None => None,
        }
    }
}

/// Number of elements of a tensor with these dimensions, saturating at
/// `u64::MAX`.
pub open spec fn spec_element_count(dims: Seq<u64>) -> u64 {
    match checked_product(dims) {
        Some(p) => p,
        None => u64::MAX,
    }
}

/// A shape the format accepts: at least one dimension, none above the limit.
pub open spec fn valid_dims(dims: Seq<u64>) -> bool {
    &&& 1 <= dims.len()
    &&& forall|i: int| 0 <= i < dims.len() ==> #[trigger] dims[i] <= MAX_DIMENSION
}

impl TensorShape {
    /// A shape from its dimensions; fails on an empty list or a dimension
    /// above [`MAX_DIMENSION`].
    pub fn new(dimensions: Vec<u64>) -> (res: Result<TensorShape, GgufError>)
        ensures
            res is Ok <==> valid_dims(dimensions@),
            res matches Ok(s) ==> s.dimensions@ == dimensions@,
    {
        if dimensions.len() == 0 {
            return Err(GgufError::InvalidTensor);
        }
        let mut i: usize = 0;
        while i < dimensions.len()
            invariant
                i <= dimensions@.len(),
                forall|j: int| 0 <= j < i ==> #[trigger] dimensions@[j] <= MAX_DIMENSION,
            decreases dimensions@.len() - i,
        {
            if dimensions[i] > MAX_DIMENSION {
                return Err(GgufError::InvalidTensor);
            }
            i = i + 1;
        }
        Ok(TensorShape { dimensions })
    }

    pub fn ndim(&self) -> (n: usize)
        ensures
            n == self.dimensions@.len(),
    {
        self.dimensions.len()
    }

    pub fn dims(&self) -> (d: &[u64])
        ensures
            d@ == self.dimensions@,
    {
        self.dimensions.as_slice()
    }

    pub fn element_count(&self) -> (n: u64)
        ensures
            n == spec_element_count(self.dimensions@),
    {
        let mut acc: u64 = 1;
        let mut i: usize = 0;
        while i < self.dimensions.len()
            invariant
                i <= self.dimensions@.len(),
                checked_product(self.dimensions@.subrange(0, i as int)) == Some(acc),
            decreases self.dimensions@.len() - i,
        {
            proof {
                assert(self.dimensions@.subrange(0, i + 1).drop_last() =~= self.dimensions@.subrange(
                    0,
                    i as int,
                ));
            }
            match acc.checked_mul(self.dimensions[i]) {
                Some(p) => {
                    acc = p;
                },
                None => {
                    proof {
                        lemma_product_none_extends(self.dimensions@, i as int + 1);
                    }
                    return u64::MAX;
                },
            }
            i = i + 1;
        }
        proof {
            assert(self.dimensions@.subrange(0, self.dimensions@.len() as int) =~= self.dimensions@);
        }
        acc
    }
}

/// Once the running product overflows it stays undefined.
proof fn lemma_product_none_extends(dims: Seq<u64>, i: int)
    requires
        0 <= i <= dims.len(),
        checked_product(dims.subrange(0, i)) is None,
    ensures
        checked_product(dims) is None,
    decreases dims.len() - i,
{
    if i < dims.len() {
        assert(dims.subrange(0, i + 1).drop_last() =~= dims.subrange(0, i));
        lemma_product_none_extends(dims, i + 1);
    } else {
        assert(dims.subrange(0, i) =~= dims);
    }
}

/// A tensor-info record: the tensor's name, shape, type and the offset of its
/// data from the start of the tensor-data section.
#[derive(Debug, PartialEq)]
pub struct TensorInfo {
    pub name: String,
    pub shape: TensorShape,
    pub tensor_type: TensorType,
    pub data_offset: u64,
}

/// The mathematical model of a tensor-info record.
pub struct TensorModel {
    pub name: Seq<char>,
    pub dims: Seq<u64>,
    pub ttype: TensorType,
    pub offset: u64,
}

pub open spec fn tensor_model(t: TensorInfo) -> TensorModel {
    TensorModel {
        name: t.name@,
        dims: t.shape.dimensions@,
        ttype: t.tensor_type,
        offset: t.data_offset,
    }
}

pub open spec fn tensor_models(s: Seq<TensorInfo>) -> Seq<TensorModel> {
    Seq::new(s.len(), |i: int| tensor_model(s[i]))
}

/// Bytes the tensor's data occupies.
pub open spec fn tensor_size(t: TensorModel) -> u64 {
    t.ttype.spec_calculate_size(spec_element_count(t.dims))
}

impl TensorInfo {
    pub fn new(name: String, shape: TensorShape, tensor_type: TensorType, data_offset: u64) -> (t:
        TensorInfo)
        ensures
            t.name@ == name@,
            t.shape == shape,
            t.tensor_type == tensor_type,
            t.data_offset == data_offset,
    {
        TensorInfo { name, shape, tensor_type, data_offset }
    }

    pub fn name(&self) -> (s: &str)
        ensures
            s@ == self.name@,
    {
        self.name.as_str()
    }

    pub fn element_count(&self) -> (n: u64)
        ensures
            n == spec_element_count(self.shape.dimensions@),
    {
        self.shape.element_count()
    }

    /// Bytes the tensor's data occupies.
    pub fn expected_data_size(&self) -> (n: u64)
        ensures
            n == tensor_size(tensor_model(*self)),
    {
        self.tensor_type.calculate_size(self.element_count())
    }
}

// ── Encoding ─────────────────────────────────────────────────────────────────

pub open spec fn enc_dims(dims: Seq<u64>) -> Seq<u8>
    decreases dims.len(),
{
    if dims.len() == 0 {
        Seq::empty()
    } else {
        enc_dims(dims.drop_last()) + spec_u64_to_le_bytes(dims.last())
    }
}

/// Encoding of a tensor-info record.
pub open spec fn enc_tensor(t: TensorModel) -> Seq<u8> {
    enc_string(t.name) + spec_u32_to_le_bytes(t.dims.len() as u32) + enc_dims(t.dims)
        + spec_u32_to_le_bytes(t.ttype.spec_code()) + spec_u64_to_le_bytes(t.offset)
}

/// A tensor-info record the format accepts.
pub open spec fn wf_tensor(t: TensorModel) -> bool {
    &&& t.name.len() > 0
    &&& encode_utf8(t.name).len() <= MAX_STRING_LEN
    &&& t.dims.len() <= MAX_DIMS
    &&& valid_dims(t.dims)
}

pub proof fn lemma_enc_dims_len(dims: Seq<u64>)
    ensures
        enc_dims(dims).len() == 8 * dims.len(),
    decreases dims.len(),
{
    lemma_u64_bytes();
    if dims.len() > 0 {
        lemma_enc_dims_len(dims.drop_last());
        assert(spec_u64_to_le_bytes(dims.last()).len() == 8);
    }
}

pub proof fn lemma_enc_dims_injective(a: Seq<u64>, b: Seq<u64>)
    requires
        a.len() == b.len(),
        enc_dims(a) == enc_dims(b),
    ensures
        a == b,
    decreases a.len(),
{
    lemma_u64_bytes();
    if a.len() > 0 {
        let a0 = a.drop_last();
        let b0 = b.drop_last();
        lemma_enc_dims_len(a0);
        lemma_enc_dims_len(b0);
        let ea = spec_u64_to_le_bytes(a.last());
        let eb = spec_u64_to_le_bytes(b.last());
        assert(ea.len() == 8 && eb.len() == 8);
        assert(enc_dims(a0) =~= enc_dims(a).subrange(0, enc_dims(a0).len() as int));
        assert(enc_dims(b0) =~= enc_dims(b).subrange(0, enc_dims(b0).len() as int));
        assert(ea =~= enc_dims(a).subrange(enc_dims(a0).len() as int, enc_dims(a).len() as int));
        assert(eb =~= enc_dims(b).subrange(enc_dims(b0).len() as int, enc_dims(b).len() as int));
        lemma_enc_dims_injective(a0, b0);
        assert(a =~= a0.push(a.last()));
        assert(b =~= b0.push(b.last()));
    } else {
        assert(a =~= b);
    }
}

/// At most one well-formed tensor record is encoded at a given place.
pub proof fn lemma_tensor_unique(a: TensorModel, b: TensorModel, s: Seq<u8>, pos: int)
    requires
        wf_tensor(a),
        wf_tensor(b),
        occurs_at(enc_tensor(a), s, pos),
        occurs_at(enc_tensor(b), s, pos),
    ensures
        a == b,
{
    lemma_u32_bytes();
    lemma_u64_bytes();
    lemma_enc_dims_len(a.dims);
    lemma_enc_dims_len(b.dims);
    let sa = enc_string(a.name);
    let sb = enc_string(b.name);
    let na = spec_u32_to_le_bytes(a.dims.len() as u32);
    let nb = spec_u32_to_le_bytes(b.dims.len() as u32);
    let ta = spec_u32_to_le_bytes(a.ttype.spec_code());
    let tb = spec_u32_to_le_bytes(b.ttype.spec_code());
    let oa = spec_u64_to_le_bytes(a.offset);
    let ob = spec_u64_to_le_bytes(b.offset);
    lemma_occurs_split(sa + na + enc_dims(a.dims) + ta, oa, s, pos);
    lemma_occurs_split(sb + nb + enc_dims(b.dims) + tb, ob, s, pos);
    lemma_occurs_split(sa + na + enc_dims(a.dims), ta, s, pos);
    lemma_occurs_split(sb + nb + enc_dims(b.dims), tb, s, pos);
    lemma_occurs_split(sa + na, enc_dims(a.dims), s, pos);
    lemma_occurs_split(sb + nb, enc_dims(b.dims), s, pos);
    lemma_occurs_split(sa, na, s, pos);
    lemma_occurs_split(sb, nb, s, pos);
    crate::format::lemma_payload_unique(
        crate::format::ValueModel::Str(a.name),
        crate::format::ValueModel::Str(b.name),
        s,
        pos,
    );
    assert(na.len() == 4 && nb.len() == 4);
    lemma_occurs_same_len(na, nb, s, pos + sa.len());
    assert(a.dims.len() == b.dims.len());
    let p2 = pos + sa.len() + 4;
    lemma_occurs_same_len(enc_dims(a.dims), enc_dims(b.dims), s, p2);
    lemma_enc_dims_injective(a.dims, b.dims);
    let p3 = p2 + 8 * a.dims.len();
    assert(ta.len() == 4 && tb.len() == 4);
    lemma_occurs_same_len(ta, tb, s, p3);
    assert(a.ttype.spec_code() == b.ttype.spec_code());
    lemma_occurs_same_len(oa, ob, s, p3 + 4);
}

/// Append the encoding of a tensor-info record.
pub fn write_tensor_info(out: &mut Vec<u8>, t: &TensorInfo)
    requires
        t.shape.dimensions@.len() <= u32::MAX,
    ensures
        final(out)@ == old(out)@ + enc_tensor(tensor_model(*t)),
{
    write_string(out, t.name.as_str());
    write_u32(out, t.shape.dimensions.len() as u32);
    let ghost before_dims = out@;
    let mut i: usize = 0;
    while i < t.shape.dimensions.len()
        invariant
            i <= t.shape.dimensions@.len(),
            out@ == before_dims + enc_dims(t.shape.dimensions@.subrange(0, i as int)),
        decreases t.shape.dimensions@.len() - i,
    {
        proof {
            assert(t.shape.dimensions@.subrange(0, i + 1).drop_last() =~= t.shape.dimensions@.subrange(
                0,
                i as int,
            ));
        }
        write_u64(out, t.shape.dimensions[i]);
        i = i + 1;
    }
    proof {
        assert(t.shape.dimensions@.subrange(0, t.shape.dimensions@.len() as int)
            =~= t.shape.dimensions@);
    }
    write_u32(out, t.tensor_type.code());
    write_u64(out, t.data_offset);
}

/// Parse the tensor-info record at `pos`.
///
/// Succeeds exactly when a well-formed record is encoded at `pos`.
pub fn parse_tensor_info(bytes: &[u8], pos: usize) -> (res: Option<(TensorInfo, usize)>)
    requires
        pos <= bytes@.len(),
    ensures
        match res {
            Some((t, end)) => {
                &&& wf_tensor(tensor_model(t))
                &&& occurs_at(enc_tensor(tensor_model(t)), bytes@, pos as int)
                &&& end == pos + enc_tensor(tensor_model(t)).len()
            },
            None => forall|w: TensorModel|
                wf_tensor(w) ==> !occurs_at(#[trigger] enc_tensor(w), bytes@, pos as int),
        },
{
    proof {
        lemma_u32_bytes();
        lemma_u64_bytes();
    }
    let n = bytes.len();
    let (name, p1) = match parse_string(bytes, pos) {
        Some(r) => r,
        None => {
            proof {
                assert forall|w: TensorModel| wf_tensor(w) implies !occurs_at(
                    #[trigger] enc_tensor(w),
                    bytes@,
                    pos as int,
                ) by {
                    if occurs_at(enc_tensor(w), bytes@, pos as int) {
                        lemma_split_tensor(w, bytes@, pos as int);
                    }
                }
            }
            return None;
        },
    };
    // Fails when the name is empty, the dimension count is out of range or
    // the bytes run out; each of these rules out every well-formed record.
    let mut fail = name.as_str().len() == 0 || n - p1 < 4;
    let mut ndims: u32 = 0;
    if !fail {
        ndims = read_u32(bytes, p1);
        fail = ndims == 0 || ndims > MAX_DIMS || ((n - p1 - 4) / 8) < ndims as usize;
    }
    if fail {
        proof {
            assert forall|w: TensorModel| wf_tensor(w) implies !occurs_at(
                #[trigger] enc_tensor(w),
                bytes@,
                pos as int,
            ) by {
                if occurs_at(enc_tensor(w), bytes@, pos as int) {
                    lemma_split_tensor(w, bytes@, pos as int);
                    crate::format::lemma_payload_unique(
                        crate::format::ValueModel::Str(w.name),
                        crate::format::ValueModel::Str(name@),
                        bytes@,
                        pos as int,
                    );
                    vstd::utf8::encode_utf8_decode_utf8(w.name);
                    if name@.len() > 0 {
                        lemma_occurs_same_len(
                            spec_u32_to_le_bytes(w.dims.len() as u32),
                            spec_u32_to_le_bytes(ndims),
                            bytes@,
                            p1 as int,
                        );
                        lemma_enc_dims_len(w.dims);
                    } else {
                        assert(encode_utf8(w.name).len() == 0 ==> w.name.len() == 0) by {
                            vstd::utf8::encode_utf8_decode_utf8(w.name);
                        }
                    }
                }
            }
        }
        return None;
    }
    let mut dims: Vec<u64> = Vec::new();
    let mut p = p1 + 4;
    let mut j: u32 = 0;
    let ghost dims_start = p1 + 4;
    proof {
        assert(enc_dims(dims@) =~= Seq::<u8>::empty());
        assert(bytes@.subrange(dims_start as int, dims_start as int) =~= Seq::<u8>::empty());
    }
    while j < ndims
        invariant
            n == bytes@.len(),
            pos <= p1,
            encode_utf8(name@).len() <= MAX_STRING_LEN,
            occurs_at(enc_string(name@), bytes@, pos as int),
            p1 == pos + enc_string(name@).len(),
            occurs_at(spec_u32_to_le_bytes(ndims), bytes@, p1 as int),
            dims_start == p1 + 4,
            j <= ndims <= MAX_DIMS,
            dims@.len() == j,
            p == dims_start + 8 * j,
            dims_start + 8 * ndims <= bytes@.len(),
            occurs_at(enc_dims(dims@), bytes@, dims_start),
            forall|k: int| 0 <= k < j ==> #[trigger] dims@[k] <= MAX_DIMENSION,
        decreases ndims - j,
    {
        let d = read_u64(bytes, p);
        if d > MAX_DIMENSION {
            proof {
                lemma_u32_bytes();
                lemma_u64_bytes();
                assert forall|w: TensorModel| wf_tensor(w) implies !occurs_at(
                    #[trigger] enc_tensor(w),
                    bytes@,
                    pos as int,
                ) by {
                    if occurs_at(enc_tensor(w), bytes@, pos as int) {
                        lemma_split_tensor(w, bytes@, pos as int);
                        crate::format::lemma_payload_unique(
                            crate::format::ValueModel::Str(w.name),
                            crate::format::ValueModel::Str(name@),
                            bytes@,
                            pos as int,
                        );
                        lemma_occurs_same_len(
                            spec_u32_to_le_bytes(w.dims.len() as u32),
                            spec_u32_to_le_bytes(ndims),
                            bytes@,
                            p1 as int,
                        );
                        lemma_dims_prefix(w.dims, j as int, bytes@, dims_start);
                        lemma_occurs_same_len(
                            spec_u64_to_le_bytes(w.dims[j as int]),
                            spec_u64_to_le_bytes(d),
                            bytes@,
                            p as int,
                        );
                    }
                }
            }
            return None;
        }
        proof {
            assert(dims@.push(d).drop_last() =~= dims@);
            lemma_enc_dims_len(dims@);
            lemma_occurs_join(enc_dims(dims@), spec_u64_to_le_bytes(d), bytes@, dims_start);
        }
        dims.push(d);
        p = p + 8;
        j = j + 1;
    }
    if n - p < 12 {
        proof {
            assert forall|w: TensorModel| wf_tensor(w) implies !occurs_at(
                #[trigger] enc_tensor(w),
                bytes@,
                pos as int,
            ) by {
                if occurs_at(enc_tensor(w), bytes@, pos as int) {
                    lemma_split_tensor(w, bytes@, pos as int);
                    crate::format::lemma_payload_unique(
                        crate::format::ValueModel::Str(w.name),
                        crate::format::ValueModel::Str(name@),
                        bytes@,
                        pos as int,
                    );
                    lemma_occurs_same_len(
                        spec_u32_to_le_bytes(w.dims.len() as u32),
                        spec_u32_to_le_bytes(ndims),
                        bytes@,
                        p1 as int,
                    );
                    lemma_enc_dims_len(w.dims);
                }
            }
        }
        return None;
    }
    let code = read_u32(bytes, p);
    let tt = match TensorType::from_u32(code) {
        Some(t) => t,
        None => {
            proof {
                assert forall|w: TensorModel| wf_tensor(w) implies !occurs_at(
                    #[trigger] enc_tensor(w),
                    bytes@,
                    pos as int,
                ) by {
                    if occurs_at(enc_tensor(w), bytes@, pos as int) {
                        lemma_split_tensor(w, bytes@, pos as int);
                        crate::format::lemma_payload_unique(
                            crate::format::ValueModel::Str(w.name),
                            crate::format::ValueModel::Str(name@),
                            bytes@,
                            pos as int,
                        );
                        lemma_occurs_same_len(
                            spec_u32_to_le_bytes(w.dims.len() as u32),
                            spec_u32_to_le_bytes(ndims),
                            bytes@,
                            p1 as int,
                        );
                        lemma_enc_dims_len(w.dims);
                        lemma_occurs_same_len(
                            spec_u32_to_le_bytes(w.ttype.spec_code()),
                            spec_u32_to_le_bytes(code),
                            bytes@,
                            p as int,
                        );
                    }
                }
            }
            return None;
        },
    };
    let offset = read_u64(bytes, p + 4);
    let t = TensorInfo { name, shape: TensorShape { dimensions: dims }, tensor_type: tt, data_offset: offset };
    proof {
        let m = tensor_model(t);
        let sn = enc_string(m.name);
        let nd = spec_u32_to_le_bytes(m.dims.len() as u32);
        assert(m.dims.len() == ndims);
        lemma_occurs_join(sn, nd, bytes@, pos as int);
        lemma_occurs_join(sn + nd, enc_dims(m.dims), bytes@, pos as int);
        lemma_enc_dims_len(m.dims);
        lemma_occurs_join(sn + nd + enc_dims(m.dims), spec_u32_to_le_bytes(code), bytes@, pos as int);
        lemma_occurs_join(
            sn + nd + enc_dims(m.dims) + spec_u32_to_le_bytes(code),
            spec_u64_to_le_bytes(offset),
            bytes@,
            pos as int,
        );
    }
    Some((t, p + 12))
}

/// The pieces of an occurring tensor record occur one after the other.
proof fn lemma_split_tensor(w: TensorModel, s: Seq<u8>, pos: int)
    requires
        occurs_at(enc_tensor(w), s, pos),
    ensures
        occurs_at(enc_string(w.name), s, pos),
        occurs_at(spec_u32_to_le_bytes(w.dims.len() as u32), s, pos + enc_string(w.name).len()),
        occurs_at(enc_dims(w.dims), s, pos + enc_string(w.name).len() + 4),
        occurs_at(
            spec_u32_to_le_bytes(w.ttype.spec_code()),
            s,
            pos + enc_string(w.name).len() + 4 + 8 * w.dims.len(),
        ),
        occurs_at(
            spec_u64_to_le_bytes(w.offset),
            s,
            pos + enc_string(w.name).len() + 8 + 8 * w.dims.len(),
        ),
{
    lemma_u32_bytes();
    lemma_u64_bytes();
    lemma_enc_dims_len(w.dims);
    let sn = enc_string(w.name);
    let nd = spec_u32_to_le_bytes(w.dims.len() as u32);
    let tt = spec_u32_to_le_bytes(w.ttype.spec_code());
    let off = spec_u64_to_le_bytes(w.offset);
    assert(nd.len() == 4 && tt.len() == 4);
    lemma_occurs_split(sn + nd + enc_dims(w.dims) + tt, off, s, pos);
    lemma_occurs_split(sn + nd + enc_dims(w.dims), tt, s, pos);
    lemma_occurs_split(sn + nd, enc_dims(w.dims), s, pos);
    lemma_occurs_split(sn, nd, s, pos);
}

/// The first `j` dimensions of an occurring dimension list occur first, and
/// the next one right after them.
proof fn lemma_dims_prefix(dims: Seq<u64>, j: int, s: Seq<u8>, pos: int)
    requires
        occurs_at(enc_dims(dims), s, pos),
        0 <= j < dims.len(),
    ensures
        occurs_at(enc_dims(dims.take(j)), s, pos),
        occurs_at(spec_u64_to_le_bytes(dims[j]), s, pos + 8 * j),
    decreases dims.len() - j,
{
    lemma_u64_bytes();
    lemma_enc_dims_len(dims.drop_last());
    lemma_enc_dims_len(dims.take(j));
    lemma_occurs_split(enc_dims(dims.drop_last()), spec_u64_to_le_bytes(dims.last()), s, pos);
    if j == dims.len() - 1 {
        assert(dims.take(j) =~= dims.drop_last());
    } else {
        lemma_dims_prefix(dims.drop_last(), j, s, pos);
        assert(dims.drop_last().take(j) =~= dims.take(j));
    }
}

} // verus!
