pub mod interleave_u8;
pub mod naive;
pub mod transpose_64x16_u8;
pub mod transpose_64x8_u8;
