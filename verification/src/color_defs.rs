//! The material design palette.

use vstd::prelude::*;
use crate::color::Rgba8;

verus! {

pub fn invisible() -> (c: Rgba8)
    ensures
        c == Rgba8::spec_init(0x00000000),
{
    Rgba8::init(0x00000000)
}

// black

pub fn black() -> (c: Rgba8)
    ensures
        c == Rgba8::spec_init_argb(0xFF000000),
{
    Rgba8::init_argb(0xFF000000)
}

pub fn black_87() -> (c: Rgba8)
    ensures
        c == Rgba8::spec_init_argb(0xDD000000),
{
    Rgba8::init_argb(0xDD000000)
}

pub fn black_54() -> (c: Rgba8)
    ensures
        c == Rgba8::spec_init_argb(0x8A000000),
{
    Rgba8::init_argb(0x8A000000)
}

pub fn black_45() -> (c: Rgba8)
    ensures
        c == Rgba8::spec_init_argb(0x73000000),
{
    Rgba8::init_argb(0x73000000)
}

pub fn black_38() -> (c: Rgba8)
    ensures
        c == Rgba8::spec_init_argb(0x61000000),
{
    Rgba8::init_argb(0x61000000)
}

pub fn black_26() -> (c: Rgba8)
    ensures
        c == Rgba8::spec_init_argb(0x42000000),
{
    Rgba8::init_argb(0x42000000)
}

pub fn black_12() -> (c: Rgba8)
    ensures
        c == Rgba8::spec_init_argb(0x1F000000),
{
    Rgba8::init_argb(0x1F000000)
}

// white

pub fn white() -> (c: Rgba8)
    ensures
        c == Rgba8::spec_init_argb(0xFFFFFFFF),
{
    Rgba8::init_argb(0xFFFFFFFF)
}

pub fn white_70() -> (c: Rgba8)
    ensures
        c == Rgba8::spec_init_argb(0xB3FFFFFF),
{
    Rgba8::init_argb(0xB3FFFFFF)
}

pub fn white_60() -> (c: Rgba8)
    ensures
        c == Rgba8::spec_init_argb(0x99FFFFFF),
{
    Rgba8::init_argb(0x99FFFFFF)
}

pub fn white_54() -> (c: Rgba8)
    ensures
        c == Rgba8::spec_init_argb(0x8AFFFFFF),
{
    Rgba8::init_argb(0x8AFFFFFF)
}

pub fn white_38() -> (c: Rgba8)
    ensures
        c == Rgba8::spec_init_argb(0x62FFFFFF),
{
    Rgba8::init_argb(0x62FFFFFF)
}

pub fn white_30() -> (c: Rgba8)
    ensures
        c == Rgba8::spec_init_argb(0x4DFFFFFF),
{
    Rgba8::init_argb(0x4DFFFFFF)
}

pub fn white_24() -> (c: Rgba8)
    ensures
        c == Rgba8::spec_init_argb(0x3DFFFFFF),
{
    Rgba8::init_argb(0x3DFFFFFF)
}

pub fn white_12() -> (c: Rgba8)
    ensures
        c == Rgba8::spec_init_argb(0x1FFFFFFF),
{
    Rgba8::init_argb(0x1FFFFFFF)
}

pub fn white_10() -> (c: Rgba8)
    ensures
        c == Rgba8::spec_init_argb(0x1AFFFFFF),
{
    Rgba8::init_argb(0x1AFFFFFF)
}

// red

pub const RED_PRIMARY_VALUE: u32 = 0xFFF44336;

pub fn red_50() -> (c: Rgba8)
    ensures
        c == Rgba8::spec_init_argb(0xFFFFEBEE),
{
    Rgba8::init_argb(0xFFFFEBEE)
}

pub fn red_100() -> (c: Rgba8)
    ensures
        c == Rgba8::spec_init_argb(0xFFFFCDD2),
{
    Rgba8::init_argb(0xFFFFCDD2)
}

pub fn red_200() -> (c: Rgba8)
    ensures
        c == Rgba8::spec_init_argb(0xFFEF9A9A),
{
    Rgba8::init_argb(0xFFEF9A9A)
}

pub fn red_300() -> (c: Rgba8)
    ensures
        c == Rgba8::spec_init_argb(0xFFE57373),
{
    Rgba8::init_argb(0xFFE57373)
}

pub fn red_400() -> (c: Rgba8)
    ensures
        c == Rgba8::spec_init_argb(0xFFEF5350),
{
    Rgba8::init_argb(0xFFEF5350)
}

pub fn red_500() -> (c: Rgba8)
    ensures
        c == Rgba8::spec_init_argb(RED_PRIMARY_VALUE),
{
    Rgba8::init_argb(RED_PRIMARY_VALUE)
}

pub fn red_600() -> (c: Rgba8)
    ensures
        c == Rgba8::spec_init_argb(0xFFE53935),
{
    Rgba8::init_argb(0xFFE53935)
}

pub fn red_700() -> (c: Rgba8)
    ensures
        c == Rgba8::spec_init_argb(0xFFD32F2F),
{
    Rgba8::init_argb(0xFFD32F2F)
}

pub fn red_800() -> (c: Rgba8)
    ensures
        c == Rgba8::spec_init_argb(0xFFC62828),
{
    Rgba8::init_argb(0xFFC62828)
}

pub fn red_900() -> (c: Rgba8)
    ensures
        c == Rgba8::spec_init_argb(0xFFB71C1C),
{
    Rgba8::init_argb(0xFFB71C1C)
}

// red accent

pub const RED_ACCENT_VALUE: u32 = 0xFFFF5252;

pub fn red_accent_100() -> (c: Rgba8)
    ensures
        c == Rgba8::spec_init_argb(0xFFFF8A80),
{
    Rgba8::init_argb(0xFFFF8A80)
}

pub fn red_accent_200() -> (c: Rgba8)
    ensures
        c == Rgba8::spec_init_argb(RED_ACCENT_VALUE),
{
    Rgba8::init_argb(RED_ACCENT_VALUE)
}

pub fn red_accent_400() -> (c: Rgba8)
    ensures
        c == Rgba8::spec_init_argb(0xFFFF1744),
{
    Rgba8::init_argb(0xFFFF1744)
}

pub fn red_accent_700() -> (c: Rgba8)
    ensures
        c == Rgba8::spec_init_argb(0xFFD50000),
{
    Rgba8::init_argb(0xFFD50000)
}

// pink

pub const PINK_PRIMARY_VALUE: u32 = 0xFFE91E63;

pub fn pink_50() -> (c: Rgba8)
    ensures
        c == Rgba8::spec_init_argb(0xFFFCE4EC),
{
    Rgba8::init_argb(0xFFFCE4EC)
}

pub fn pink_100() -> (c: Rgba8)
    ensures
        c == Rgba8::spec_init_argb(0xFFF8BBD0),
{
    Rgba8::init_argb(0xFFF8BBD0)
}

pub fn pink_200() -> (c: Rgba8)
    ensures
        c == Rgba8::spec_init_argb(0xFFF48FB1),
{
    Rgba8::init_argb(0xFFF48FB1)
}

pub fn pink_300() -> (c: Rgba8)
    ensures
        c == Rgba8::spec_init_argb(0xFFF06292),
{
    Rgba8::init_argb(0xFFF06292)
}

pub fn pink_400() -> (c: Rgba8)
    ensures
        c == Rgba8::spec_init_argb(0xFFEC407A),
{
    Rgba8::init_argb(0xFFEC407A)
}

pub fn pink_500() -> (c: Rgba8)
    ensures
        c == Rgba8::spec_init_argb(PINK_PRIMARY_VALUE),
{
    Rgba8::init_argb(PINK_PRIMARY_VALUE)
}

pub fn pink_600() -> (c: Rgba8)
    ensures
        c == Rgba8::spec_init_argb(0xFFD81B60),
{
    Rgba8::init_argb(0xFFD81B60)
}

pub fn pink_700() -> (c: Rgba8)
    ensures
        c == Rgba8::spec_init_argb(0xFFC2185B),
{
    Rgba8::init_argb(0xFFC2185B)
}

pub fn pink_800() -> (c: Rgba8)
    ensures
        c == Rgba8::spec_init_argb(0xFFAD1457),
{
    Rgba8::init_argb(0xFFAD1457)
}

pub fn pink_900() -> (c: Rgba8)
    ensures
        c == Rgba8::spec_init_argb(0xFF880E4F),
{
    Rgba8::init_argb(0xFF880E4F)
}

// pink accent

pub const PINK_ACCENT_PRIMARY_VALUE: u32 = 0xFFFF4081;

pub fn pink_accent_100() -> (c: Rgba8)
    ensures
        c == Rgba8::spec_init_argb(0xFFFF80AB),
{
    Rgba8::init_argb(0xFFFF80AB)
}

pub fn pink_accent_200() -> (c: Rgba8)
    ensures
        c == Rgba8::spec_init_argb(PINK_ACCENT_PRIMARY_VALUE),
{
    Rgba8::init_argb(PINK_ACCENT_PRIMARY_VALUE)
}

pub fn pink_accent_400() -> (c: Rgba8)
    ensures
        c == Rgba8::spec_init_argb(0xFFF50057),
{
    Rgba8::init_argb(0xFFF50057)
}

pub fn pink_accent_700() -> (c: Rgba8)
    ensures
        c == Rgba8::spec_init_argb(0xFFC51162),
{
    Rgba8::init_argb(0xFFC51162)
}

// purple

pub const PURPLE_PRIMARY_VALUE: u32 = 0xFF9C27B0;

pub fn purple_50() -> (c: Rgba8)
    ensures
        c == Rgba8::spec_init_argb(0xFFF3E5F5),
{
    Rgba8::init_argb(0xFFF3E5F5)
}

pub fn purple_100() -> (c: Rgba8)
    ensures
        c == Rgba8::spec_init_argb(0xFFE1BEE7),
{
    Rgba8::init_argb(0xFFE1BEE7)
}

pub fn purple_200() -> (c: Rgba8)
    ensures
        c == Rgba8::spec_init_argb(0xFFCE93D8),
{
    Rgba8::init_argb(0xFFCE93D8)
}

pub fn purple_300() -> (c: Rgba8)
    ensures
        c == Rgba8::spec_init_argb(0xFFBA68C8),
{
    Rgba8::init_argb(0xFFBA68C8)
}

pub fn purple_400() -> (c: Rgba8)
    ensures
        c == Rgba8::spec_init_argb(0xFFAB47BC),
{
    Rgba8::init_argb(0xFFAB47BC)
}

pub fn purple_500() -> (c: Rgba8)
    ensures
        c == Rgba8::spec_init_argb(PURPLE_PRIMARY_VALUE),
{
    Rgba8::init_argb(PURPLE_PRIMARY_VALUE)
}

pub fn purple_600() -> (c: Rgba8)
    ensures
        c == Rgba8::spec_init_argb(0xFF8E24AA),
{
    Rgba8::init_argb(0xFF8E24AA)
}

pub fn purple_700() -> (c: Rgba8)
    ensures
        c == Rgba8::spec_init_argb(0xFF7B1FA2),
{
    Rgba8::init_argb(0xFF7B1FA2)
}

pub fn purple_800() -> (c: Rgba8)
    ensures
        c == Rgba8::spec_init_argb(0xFF6A1B9A),
{
    Rgba8::init_argb(0xFF6A1B9A)
}

pub fn purple_900() -> (c: Rgba8)
    ensures
        c == Rgba8::spec_init_argb(0xFF4A148C),
{
    Rgba8::init_argb(0xFF4A148C)
}

// purple accent

pub const PURPLE_ACCENT_PRIMARY_VALUE: u32 = 0xFFE040FB;

pub fn purple_accent_100() -> (c: Rgba8)
    ensures
        c == Rgba8::spec_init_argb(0xFFEA80FC),
{
    Rgba8::init_argb(0xFFEA80FC)
}

pub fn purple_accent_200() -> (c: Rgba8)
    ensures
        c == Rgba8::spec_init_argb(PURPLE_ACCENT_PRIMARY_VALUE),
{
    Rgba8::init_argb(PURPLE_ACCENT_PRIMARY_VALUE)
}

pub fn purple_accent_400() -> (c: Rgba8)
    ensures
        c == Rgba8::spec_init_argb(0xFFD500F9),
{
    Rgba8::init_argb(0xFFD500F9)
}

pub fn purple_accent_700() -> (c: Rgba8)
    ensures
        c == Rgba8::spec_init_argb(0xFFAA00FF),
{
    Rgba8::init_argb(0xFFAA00FF)
}

// purple

pub const DEEP_PURPLE_PRIMARY_VALUE: u32 = 0xFF673AB7;

pub fn deep_purple_50() -> (c: Rgba8)
    ensures
        c == Rgba8::spec_init_argb(0xFFEDE7F6),
{
    Rgba8::init_argb(0xFFEDE7F6)
}

pub fn deep_purple_100() -> (c: Rgba8)
    ensures
        c == Rgba8::spec_init_argb(0xFFD1C4E9),
{
    Rgba8::init_argb(0xFFD1C4E9)
}

pub fn deep_purple_200() -> (c: Rgba8)
    ensures
        c == Rgba8::spec_init_argb(0xFFB39DDB),
{
    Rgba8::init_argb(0xFFB39DDB)
}

pub fn deep_purple_300() -> (c: Rgba8)
    ensures
        c == Rgba8::spec_init_argb(0xFF9575CD),
{
    Rgba8::init_argb(0xFF9575CD)
}

pub fn deep_purple_400() -> (c: Rgba8)
    ensures
        c == Rgba8::spec_init_argb(0xFF7E57C2),
{
    Rgba8::init_argb(0xFF7E57C2)
}

pub fn deep_purple_500() -> (c: Rgba8)
    ensures
        c == Rgba8::spec_init_argb(DEEP_PURPLE_PRIMARY_VALUE),
{
    Rgba8::init_argb(DEEP_PURPLE_PRIMARY_VALUE)
}

pub fn deep_purple_600() -> (c: Rgba8)
    ensures
        c == Rgba8::spec_init_argb(0xFF5E35B1),
{
    Rgba8::init_argb(0xFF5E35B1)
}

pub fn deep_purple_700() -> (c: Rgba8)
    ensures
        c == Rgba8::spec_init_argb(0xFF512DA8),
{
    Rgba8::init_argb(0xFF512DA8)
}

pub fn deep_purple_800() -> (c: Rgba8)
    ensures
        c == Rgba8::spec_init_argb(0xFF4527A0),
{
    Rgba8::init_argb(0xFF4527A0)
}

pub fn deep_purple_900() -> (c: Rgba8)
    ensures
        c == Rgba8::spec_init_argb(0xFF311B92),
{
    Rgba8::init_argb(0xFF311B92)
}

// purple accent

pub const DEEP_PURPLE_ACCENT_PRIMARY_VALUE: u32 = 0xFF7C4DFF;

pub fn deep_purple_accent_100() -> (c: Rgba8)
    ensures
        c == Rgba8::spec_init_argb(0xFFB388FF),
{
    Rgba8::init_argb(0xFFB388FF)
}

pub fn deep_purple_accent_200() -> (c: Rgba8)
    ensures
        c == Rgba8::spec_init_argb(DEEP_PURPLE_ACCENT_PRIMARY_VALUE),
{
    Rgba8::init_argb(DEEP_PURPLE_ACCENT_PRIMARY_VALUE)
}

pub fn deep_purple_accent_400() -> (c: Rgba8)
    ensures
        c == Rgba8::spec_init_argb(0xFF651FFF),
{
    Rgba8::init_argb(0xFF651FFF)
}

pub fn deep_purple_accent_700() -> (c: Rgba8)
    ensures
        c == Rgba8::spec_init_argb(0xFF6200EA),
{
    Rgba8::init_argb(0xFF6200EA)
}

// indigo

pub const INDIGO_PRIMARY_VALUE: u32 = 0xFF3F51B5;

pub fn indigo_50() -> (c: Rgba8)
    ensures
        c == Rgba8::spec_init_argb(0xFFE8EAF6),
{
    Rgba8::init_argb(0xFFE8EAF6)
}

pub fn indigo_100() -> (c: Rgba8)
    ensures
        c == Rgba8::spec_init_argb(0xFFC5CAE9),
{
    Rgba8::init_argb(0xFFC5CAE9)
}

pub fn indigo_200() -> (c: Rgba8)
    ensures
        c == Rgba8::spec_init_argb(0xFF9FA8DA),
{
    Rgba8::init_argb(0xFF9FA8DA)
}

pub fn indigo_300() -> (c: Rgba8)
    ensures
        c == Rgba8::spec_init_argb(0xFF7986CB),
{
    Rgba8::init_argb(0xFF7986CB)
}

pub fn indigo_400() -> (c: Rgba8)
    ensures
        c == Rgba8::spec_init_argb(0xFF5C6BC0),
{
    Rgba8::init_argb(0xFF5C6BC0)
}

pub fn indigo_500() -> (c: Rgba8)
    ensures
        c == Rgba8::spec_init_argb(INDIGO_PRIMARY_VALUE),
{
    Rgba8::init_argb(INDIGO_PRIMARY_VALUE)
}

pub fn indigo_600() -> (c: Rgba8)
    ensures
        c == Rgba8::spec_init_argb(0xFF3949AB),
{
    Rgba8::init_argb(0xFF3949AB)
}

pub fn indigo_700() -> (c: Rgba8)
    ensures
        c == Rgba8::spec_init_argb(0xFF303F9F),
{
    Rgba8::init_argb(0xFF303F9F)
}

pub fn indigo_800() -> (c: Rgba8)
    ensures
        c == Rgba8::spec_init_argb(0xFF283593),
{
    Rgba8::init_argb(0xFF283593)
}

pub fn indigo_900() -> (c: Rgba8)
    ensures
        c == Rgba8::spec_init_argb(0xFF1A237E),
{
    Rgba8::init_argb(0xFF1A237E)
}

// indigo accent

pub const INDIGO_ACCENT_PRIMARY_VALUE: u32 = 0xFF536DFE;

pub fn indigo_accent_100() -> (c: Rgba8)
    ensures
        c == Rgba8::spec_init_argb(0xFF8C9EFF),
{
    Rgba8::init_argb(0xFF8C9EFF)
}

pub fn indigo_accent_200() -> (c: Rgba8)
    ensures
        c == Rgba8::spec_init_argb(INDIGO_ACCENT_PRIMARY_VALUE),
{
    Rgba8::init_argb(INDIGO_ACCENT_PRIMARY_VALUE)
}

pub fn indigo_accent_400() -> (c: Rgba8)
    ensures
        c == Rgba8::spec_init_argb(0xFF3D5AFE),
{
    Rgba8::init_argb(0xFF3D5AFE)
}

pub fn indigo_accent_700() -> (c: Rgba8)
    ensures
        c == Rgba8::spec_init_argb(0xFF304FFE),
{
    Rgba8::init_argb(0xFF304FFE)
}

// blue

pub const BLUE_PRIMARY_VALUE: u32 = 0xFF2196F3;

pub fn blue_50() -> (c: Rgba8)
    ensures
        c == Rgba8::spec_init_argb(0xFFE3F2FD),
{
    Rgba8::init_argb(0xFFE3F2FD)
}

pub fn blue_100() -> (c: Rgba8)
    ensures
        c == Rgba8::spec_init_argb(0xFFBBDEFB),
{
    Rgba8::init_argb(0xFFBBDEFB)
}

pub fn blue_200() -> (c: Rgba8)
    ensures
        c == Rgba8::spec_init_argb(0xFF90CAF9),
{
    Rgba8::init_argb(0xFF90CAF9)
}

pub fn blue_300() -> (c: Rgba8)
    ensures
        c == Rgba8::spec_init_argb(0xFF64B5F6),
{
    Rgba8::init_argb(0xFF64B5F6)
}

pub fn blue_400() -> (c: Rgba8)
    ensures
        c == Rgba8::spec_init_argb(0xFF42A5F5),
{
    Rgba8::init_argb(0xFF42A5F5)
}

pub fn blue_500() -> (c: Rgba8)
    ensures
        c == Rgba8::spec_init_argb(BLUE_PRIMARY_VALUE),
{
    Rgba8::init_argb(BLUE_PRIMARY_VALUE)
}

pub fn blue_600() -> (c: Rgba8)
    ensures
        c == Rgba8::spec_init_argb(0xFF1E88E5),
{
    Rgba8::init_argb(0xFF1E88E5)
}

pub fn blue_700() -> (c: Rgba8)
    ensures
        c == Rgba8::spec_init_argb(0xFF1976D2),
{
    Rgba8::init_argb(0xFF1976D2)
}

pub fn blue_800() -> (c: Rgba8)
    ensures
        c == Rgba8::spec_init_argb(0xFF1565C0),
{
    Rgba8::init_argb(0xFF1565C0)
}

pub fn blue_900() -> (c: Rgba8)
    ensures
        c == Rgba8::spec_init_argb(0xFF0D47A1),
{
    Rgba8::init_argb(0xFF0D47A1)
}

// blue accent

pub const BLUE_ACCENT_PRIMARY_VALUE: u32 = 0xFF448AFF;

pub fn blue_accent_100() -> (c: Rgba8)
    ensures
        c == Rgba8::spec_init_argb(0xFF82B1FF),
{
    Rgba8::init_argb(0xFF82B1FF)
}

pub fn blue_accent_200() -> (c: Rgba8)
    ensures
        c == Rgba8::spec_init_argb(BLUE_ACCENT_PRIMARY_VALUE),
{
    Rgba8::init_argb(BLUE_ACCENT_PRIMARY_VALUE)
}

pub fn blue_accent_400() -> (c: Rgba8)
    ensures
        c == Rgba8::spec_init_argb(0xFF2979FF),
{
    Rgba8::init_argb(0xFF2979FF)
}

pub fn blue_accent_700() -> (c: Rgba8)
    ensures
        c == Rgba8::spec_init_argb(0xFF2962FF),
{
    Rgba8::init_argb(0xFF2962FF)
}

// light blue

pub const LIGHT_BLUE_PRIMARY_VALUE: u32 = 0xFF03A9F4;

pub fn light_blue_50() -> (c: Rgba8)
    ensures
        c == Rgba8::spec_init_argb(0xFFE1F5FE),
{
    Rgba8::init_argb(0xFFE1F5FE)
}

pub fn light_blue_100() -> (c: Rgba8)
    ensures
        c == Rgba8::spec_init_argb(0xFFB3E5FC),
{
    Rgba8::init_argb(0xFFB3E5FC)
}

pub fn light_blue_200() -> (c: Rgba8)
    ensures
        c == Rgba8::spec_init_argb(0xFF81D4FA),
{
    Rgba8::init_argb(0xFF81D4FA)
}

pub fn light_blue_300() -> (c: Rgba8)
    ensures
        c == Rgba8::spec_init_argb(0xFF4FC3F7),
{
    Rgba8::init_argb(0xFF4FC3F7)
}

pub fn light_blue_400() -> (c: Rgba8)
    ensures
        c == Rgba8::spec_init_argb(0xFF29B6F6),
{
    Rgba8::init_argb(0xFF29B6F6)
}

pub fn light_blue_500() -> (c: Rgba8)
    ensures
        c == Rgba8::spec_init_argb(LIGHT_BLUE_PRIMARY_VALUE),
{
    Rgba8::init_argb(LIGHT_BLUE_PRIMARY_VALUE)
}

pub fn light_blue_600() -> (c: Rgba8)
    ensures
        c == Rgba8::spec_init_argb(0xFF039BE5),
{
    Rgba8::init_argb(0xFF039BE5)
}

pub fn light_blue_700() -> (c: Rgba8)
    ensures
        c == Rgba8::spec_init_argb(0xFF0288D1),
{
    Rgba8::init_argb(0xFF0288D1)
}

pub fn light_blue_800() -> (c: Rgba8)
    ensures
        c == Rgba8::spec_init_argb(0xFF0277BD),
{
    Rgba8::init_argb(0xFF0277BD)
}

pub fn light_blue_900() -> (c: Rgba8)
    ensures
        c == Rgba8::spec_init_argb(0xFF01579B),
{
    Rgba8::init_argb(0xFF01579B)
}

// light blue accent

pub const LIGHT_BLUE_ACCENT_PRIMARY_VALUE: u32 = 0xFF40C4FF;

pub fn light_blue_accent_100() -> (c: Rgba8)
    ensures
        c == Rgba8::spec_init_argb(0xFF80D8FF),
{
    Rgba8::init_argb(0xFF80D8FF)
}

pub fn light_blue_accent_200() -> (c: Rgba8)
    ensures
        c == Rgba8::spec_init_argb(LIGHT_BLUE_ACCENT_PRIMARY_VALUE),
{
    Rgba8::init_argb(LIGHT_BLUE_ACCENT_PRIMARY_VALUE)
}

pub fn light_blue_accent_400() -> (c: Rgba8)
    ensures
        c == Rgba8::spec_init_argb(0xFF00B0FF),
{
    Rgba8::init_argb(0xFF00B0FF)
}

pub fn light_blue_accent_700() -> (c: Rgba8)
    ensures
        c == Rgba8::spec_init_argb(0xFF0091EA),
{
    Rgba8::init_argb(0xFF0091EA)
}

// cyan

pub const CYAN_PRIMARY_VALUE: u32 = 0xFF00BCD4;

pub fn cyan_50() -> (c: Rgba8)
    ensures
        c == Rgba8::spec_init_argb(0xFFE0F7FA),
{
    Rgba8::init_argb(0xFFE0F7FA)
}

pub fn cyan_100() -> (c: Rgba8)
    ensures
        c == Rgba8::spec_init_argb(0xFFB2EBF2),
{
    Rgba8::init_argb(0xFFB2EBF2)
}

pub fn cyan_200() -> (c: Rgba8)
    ensures
        c == Rgba8::spec_init_argb(0xFF80DEEA),
{
    Rgba8::init_argb(0xFF80DEEA)
}

pub fn cyan_300() -> (c: Rgba8)
    ensures
        c == Rgba8::spec_init_argb(0xFF4DD0E1),
{
    Rgba8::init_argb(0xFF4DD0E1)
}

pub fn cyan_400() -> (c: Rgba8)
    ensures
        c == Rgba8::spec_init_argb(0xFF26C6DA),
{
    Rgba8::init_argb(0xFF26C6DA)
}

pub fn cyan_500() -> (c: Rgba8)
    ensures
        c == Rgba8::spec_init_argb(CYAN_PRIMARY_VALUE),
{
    Rgba8::init_argb(CYAN_PRIMARY_VALUE)
}

pub fn cyan_600() -> (c: Rgba8)
    ensures
        c == Rgba8::spec_init_argb(0xFF00ACC1),
{
    Rgba8::init_argb(0xFF00ACC1)
}

pub fn cyan_700() -> (c: Rgba8)
    ensures
        c == Rgba8::spec_init_argb(0xFF0097A7),
{
    Rgba8::init_argb(0xFF0097A7)
}

pub fn cyan_800() -> (c: Rgba8)
    ensures
        c == Rgba8::spec_init_argb(0xFF00838F),
{
    Rgba8::init_argb(0xFF00838F)
}

pub fn cyan_900() -> (c: Rgba8)
    ensures
        c == Rgba8::spec_init_argb(0xFF006064),
{
    Rgba8::init_argb(0xFF006064)
}

// cyan accent

pub const CYAN_ACCENT_PRIMARY_VALUE: u32 = 0xFF18FFFF;

pub fn cyan_accent_100() -> (c: Rgba8)
    ensures
        c == Rgba8::spec_init_argb(0xFF84FFFF),
{
    Rgba8::init_argb(0xFF84FFFF)
}

pub fn cyan_accent_200() -> (c: Rgba8)
    ensures
        c == Rgba8::spec_init_argb(CYAN_ACCENT_PRIMARY_VALUE),
{
    Rgba8::init_argb(CYAN_ACCENT_PRIMARY_VALUE)
}

pub fn cyan_accent_400() -> (c: Rgba8)
    ensures
        c == Rgba8::spec_init_argb(0xFF00E5FF),
{
    Rgba8::init_argb(0xFF00E5FF)
}

pub fn cyan_accent_700() -> (c: Rgba8)
    ensures
        c == Rgba8::spec_init_argb(0xFF00B8D4),
{
    Rgba8::init_argb(0xFF00B8D4)
}

// teal

pub const TEAL_PRIMARY_VALUE: u32 = 0xFF009688;

pub fn teal_50() -> (c: Rgba8)
    ensures
        c == Rgba8::spec_init_argb(0xFFE0F2F1),
{
    Rgba8::init_argb(0xFFE0F2F1)
}

pub fn teal_100() -> (c: Rgba8)
    ensures
        c == Rgba8::spec_init_argb(0xFFB2DFDB),
{
    Rgba8::init_argb(0xFFB2DFDB)
}

pub fn teal_200() -> (c: Rgba8)
    ensures
        c == Rgba8::spec_init_argb(0xFF80CBC4),
{
    Rgba8::init_argb(0xFF80CBC4)
}

pub fn teal_300() -> (c: Rgba8)
    ensures
        c == Rgba8::spec_init_argb(0xFF4DB6AC),
{
    Rgba8::init_argb(0xFF4DB6AC)
}

pub fn teal_400() -> (c: Rgba8)
    ensures
        c == Rgba8::spec_init_argb(0xFF26A69A),
{
    Rgba8::init_argb(0xFF26A69A)
}

pub fn teal_500() -> (c: Rgba8)
    ensures
        c == Rgba8::spec_init_argb(TEAL_PRIMARY_VALUE),
{
    Rgba8::init_argb(TEAL_PRIMARY_VALUE)
}

pub fn teal_600() -> (c: Rgba8)
    ensures
        c == Rgba8::spec_init_argb(0xFF00897B),
{
    Rgba8::init_argb(0xFF00897B)
}

pub fn teal_700() -> (c: Rgba8)
    ensures
        c == Rgba8::spec_init_argb(0xFF00796B),
{
    Rgba8::init_argb(0xFF00796B)
}

pub fn teal_800() -> (c: Rgba8)
    ensures
        c == Rgba8::spec_init_argb(0xFF00695C),
{
    Rgba8::init_argb(0xFF00695C)
}

pub fn teal_900() -> (c: Rgba8)
    ensures
        c == Rgba8::spec_init_argb(0xFF004D40),
{
    Rgba8::init_argb(0xFF004D40)
}

// teal accent

pub const TEAL_ACCENT_PRIMARY_VALUE: u32 = 0xFF64FFDA;

pub fn teal_accent_100() -> (c: Rgba8)
    ensures
        c == Rgba8::spec_init_argb(0xFFA7FFEB),
{
    Rgba8::init_argb(0xFFA7FFEB)
}

pub fn teal_accent_200() -> (c: Rgba8)
    ensures
        c == Rgba8::spec_init_argb(TEAL_ACCENT_PRIMARY_VALUE),
{
    Rgba8::init_argb(TEAL_ACCENT_PRIMARY_VALUE)
}

pub fn teal_accent_400() -> (c: Rgba8)
    ensures
        c == Rgba8::spec_init_argb(0xFF1DE9B6),
{
    Rgba8::init_argb(0xFF1DE9B6)
}

pub fn teal_accent_700() -> (c: Rgba8)
    ensures
        c == Rgba8::spec_init_argb(0xFF00BFA5),
{
    Rgba8::init_argb(0xFF00BFA5)
}

// green

pub const GREEN_PRIMARY_VALUE: u32 = 0xFF4CAF50;

pub fn green_50() -> (c: Rgba8)
    ensures
        c == Rgba8::spec_init_argb(0xFFE8F5E9),
{
    Rgba8::init_argb(0xFFE8F5E9)
}

pub fn green_100() -> (c: Rgba8)
    ensures
        c == Rgba8::spec_init_argb(0xFFC8E6C9),
{
    Rgba8::init_argb(0xFFC8E6C9)
}

pub fn green_200() -> (c: Rgba8)
    ensures
        c == Rgba8::spec_init_argb(0xFFA5D6A7),
{
    Rgba8::init_argb(0xFFA5D6A7)
}

pub fn green_300() -> (c: Rgba8)
    ensures
        c == Rgba8::spec_init_argb(0xFF81C784),
{
    Rgba8::init_argb(0xFF81C784)
}

pub fn green_400() -> (c: Rgba8)
    ensures
        c == Rgba8::spec_init_argb(0xFF66BB6A),
{
    Rgba8::init_argb(0xFF66BB6A)
}

pub fn green_500() -> (c: Rgba8)
    ensures
        c == Rgba8::spec_init_argb(GREEN_PRIMARY_VALUE),
{
    Rgba8::init_argb(GREEN_PRIMARY_VALUE)
}

pub fn green_600() -> (c: Rgba8)
    ensures
        c == Rgba8::spec_init_argb(0xFF43A047),
{
    Rgba8::init_argb(0xFF43A047)
}

pub fn green_700() -> (c: Rgba8)
    ensures
        c == Rgba8::spec_init_argb(0xFF388E3C),
{
    Rgba8::init_argb(0xFF388E3C)
}

pub fn green_800() -> (c: Rgba8)
    ensures
        c == Rgba8::spec_init_argb(0xFF2E7D32),
{
    Rgba8::init_argb(0xFF2E7D32)
}

pub fn green_900() -> (c: Rgba8)
    ensures
        c == Rgba8::spec_init_argb(0xFF1B5E20),
{
    Rgba8::init_argb(0xFF1B5E20)
}

// green accent

pub const GREEN_ACCENT_PRIMARY_VALUE: u32 = 0xFF69F0AE;

pub fn green_accent_100() -> (c: Rgba8)
    ensures
        c == Rgba8::spec_init_argb(0xFFB9F6CA),
{
    Rgba8::init_argb(0xFFB9F6CA)
}

pub fn green_accent_200() -> (c: Rgba8)
    ensures
        c == Rgba8::spec_init_argb(GREEN_ACCENT_PRIMARY_VALUE),
{
    Rgba8::init_argb(GREEN_ACCENT_PRIMARY_VALUE)
}

pub fn green_accent_400() -> (c: Rgba8)
    ensures
        c == Rgba8::spec_init_argb(0xFF00E676),
{
    Rgba8::init_argb(0xFF00E676)
}

pub fn green_accent_700() -> (c: Rgba8)
    ensures
        c == Rgba8::spec_init_argb(0xFF00C853),
{
    Rgba8::init_argb(0xFF00C853)
}

// light green

pub const LIGHT_GREEN_PRIMARY_VALUE: u32 = 0xFF8BC34A;

pub fn light_green_50() -> (c: Rgba8)
    ensures
        c == Rgba8::spec_init_argb(0xFFF1F8E9),
{
    Rgba8::init_argb(0xFFF1F8E9)
}

pub fn light_green_100() -> (c: Rgba8)
    ensures
        c == Rgba8::spec_init_argb(0xFFDCEDC8),
{
    Rgba8::init_argb(0xFFDCEDC8)
}

pub fn light_green_200() -> (c: Rgba8)
    ensures
        c == Rgba8::spec_init_argb(0xFFC5E1A5),
{
    Rgba8::init_argb(0xFFC5E1A5)
}

pub fn light_green_300() -> (c: Rgba8)
    ensures
        c == Rgba8::spec_init_argb(0xFFAED581),
{
    Rgba8::init_argb(0xFFAED581)
}

pub fn light_green_400() -> (c: Rgba8)
    ensures
        c == Rgba8::spec_init_argb(0xFF9CCC65),
{
    Rgba8::init_argb(0xFF9CCC65)
}

pub fn light_green_500() -> (c: Rgba8)
    ensures
        c == Rgba8::spec_init_argb(LIGHT_GREEN_PRIMARY_VALUE),
{
    Rgba8::init_argb(LIGHT_GREEN_PRIMARY_VALUE)
}

pub fn light_green_600() -> (c: Rgba8)
    ensures
        c == Rgba8::spec_init_argb(0xFF7CB342),
{
    Rgba8::init_argb(0xFF7CB342)
}

pub fn light_green_700() -> (c: Rgba8)
    ensures
        c == Rgba8::spec_init_argb(0xFF689F38),
{
    Rgba8::init_argb(0xFF689F38)
}

pub fn light_green_800() -> (c: Rgba8)
    ensures
        c == Rgba8::spec_init_argb(0xFF558B2F),
{
    Rgba8::init_argb(0xFF558B2F)
}

pub fn light_green_900() -> (c: Rgba8)
    ensures
        c == Rgba8::spec_init_argb(0xFF33691E),
{
    Rgba8::init_argb(0xFF33691E)
}

// light green accent

pub const LIGHT_GREEN_ACCENT_PRIMARY_VALUE: u32 = 0xFFB2FF59;

pub fn light_green_accent_100() -> (c: Rgba8)
    ensures
        c == Rgba8::spec_init_argb(0xFFCCFF90),
{
    Rgba8::init_argb(0xFFCCFF90)
}

pub fn light_green_accent_200() -> (c: Rgba8)
    ensures
        c == Rgba8::spec_init_argb(LIGHT_GREEN_ACCENT_PRIMARY_VALUE),
{
    Rgba8::init_argb(LIGHT_GREEN_ACCENT_PRIMARY_VALUE)
}

pub fn light_green_accent_400() -> (c: Rgba8)
    ensures
        c == Rgba8::spec_init_argb(0xFF76FF03),
{
    Rgba8::init_argb(0xFF76FF03)
}

pub fn light_green_accent_700() -> (c: Rgba8)
    ensures
        c == Rgba8::spec_init_argb(0xFF64DD17),
{
    Rgba8::init_argb(0xFF64DD17)
}

// lime

pub const LIME_PRIMARY_VALUE: u32 = 0xFFCDDC39;

pub fn lime_50() -> (c: Rgba8)
    ensures
        c == Rgba8::spec_init_argb(0xFFF9FBE7),
{
    Rgba8::init_argb(0xFFF9FBE7)
}

pub fn lime_100() -> (c: Rgba8)
    ensures
        c == Rgba8::spec_init_argb(0xFFF0F4C3),
{
    Rgba8::init_argb(0xFFF0F4C3)
}

pub fn lime_200() -> (c: Rgba8)
    ensures
        c == Rgba8::spec_init_argb(0xFFE6EE9C),
{
    Rgba8::init_argb(0xFFE6EE9C)
}

pub fn lime_300() -> (c: Rgba8)
    ensures
        c == Rgba8::spec_init_argb(0xFFDCE775),
{
    Rgba8::init_argb(0xFFDCE775)
}

pub fn lime_400() -> (c: Rgba8)
    ensures
        c == Rgba8::spec_init_argb(0xFFD4E157),
{
    Rgba8::init_argb(0xFFD4E157)
}

pub fn lime_500() -> (c: Rgba8)
    ensures
        c == Rgba8::spec_init_argb(LIME_PRIMARY_VALUE),
{
    Rgba8::init_argb(LIME_PRIMARY_VALUE)
}

pub fn lime_600() -> (c: Rgba8)
    ensures
        c == Rgba8::spec_init_argb(0xFFC0CA33),
{
    Rgba8::init_argb(0xFFC0CA33)
}

pub fn lime_700() -> (c: Rgba8)
    ensures
        c == Rgba8::spec_init_argb(0xFFAFB42B),
{
    Rgba8::init_argb(0xFFAFB42B)
}

pub fn lime_800() -> (c: Rgba8)
    ensures
        c == Rgba8::spec_init_argb(0xFF9E9D24),
{
    Rgba8::init_argb(0xFF9E9D24)
}

pub fn lime_900() -> (c: Rgba8)
    ensures
        c == Rgba8::spec_init_argb(0xFF827717),
{
    Rgba8::init_argb(0xFF827717)
}

// lime accent

pub const LIME_ACCENT_PRIMARY_VALUE: u32 = 0xFFEEFF41;

pub fn lime_accent_100() -> (c: Rgba8)
    ensures
        c == Rgba8::spec_init_argb(0xFFF4FF81),
{
    Rgba8::init_argb(0xFFF4FF81)
}

pub fn lime_accent_200() -> (c: Rgba8)
    ensures
        c == Rgba8::spec_init_argb(LIME_ACCENT_PRIMARY_VALUE),
{
    Rgba8::init_argb(LIME_ACCENT_PRIMARY_VALUE)
}

pub fn lime_accent_400() -> (c: Rgba8)
    ensures
        c == Rgba8::spec_init_argb(0xFFC6FF00),
{
    Rgba8::init_argb(0xFFC6FF00)
}

pub fn lime_accent_700() -> (c: Rgba8)
    ensures
        c == Rgba8::spec_init_argb(0xFFAEEA00),
{
    Rgba8::init_argb(0xFFAEEA00)
}

// yellow

pub const YELLOW_PRIMARY_VALUE: u32 = 0xFFFFEB3B;

pub fn yellow_50() -> (c: Rgba8)
    ensures
        c == Rgba8::spec_init_argb(0xFFFFFDE7),
{
    Rgba8::init_argb(0xFFFFFDE7)
}

pub fn yellow_100() -> (c: Rgba8)
    ensures
        c == Rgba8::spec_init_argb(0xFFFFF9C4),
{
    Rgba8::init_argb(0xFFFFF9C4)
}

pub fn yellow_200() -> (c: Rgba8)
    ensures
        c == Rgba8::spec_init_argb(0xFFFFF59D),
{
    Rgba8::init_argb(0xFFFFF59D)
}

pub fn yellow_300() -> (c: Rgba8)
    ensures
        c == Rgba8::spec_init_argb(0xFFFFF176),
{
    Rgba8::init_argb(0xFFFFF176)
}

pub fn yellow_400() -> (c: Rgba8)
    ensures
        c == Rgba8::spec_init_argb(0xFFFFEE58),
{
    Rgba8::init_argb(0xFFFFEE58)
}

pub fn yellow_500() -> (c: Rgba8)
    ensures
        c == Rgba8::spec_init_argb(YELLOW_PRIMARY_VALUE),
{
    Rgba8::init_argb(YELLOW_PRIMARY_VALUE)
}

pub fn yellow_600() -> (c: Rgba8)
    ensures
        c == Rgba8::spec_init_argb(0xFFFDD835),
{
    Rgba8::init_argb(0xFFFDD835)
}

pub fn yellow_700() -> (c: Rgba8)
    ensures
        c == Rgba8::spec_init_argb(0xFFFBC02D),
{
    Rgba8::init_argb(0xFFFBC02D)
}

pub fn yellow_800() -> (c: Rgba8)
    ensures
        c == Rgba8::spec_init_argb(0xFFF9A825),
{
    Rgba8::init_argb(0xFFF9A825)
}

pub fn yellow_900() -> (c: Rgba8)
    ensures
        c == Rgba8::spec_init_argb(0xFFF57F17),
{
    Rgba8::init_argb(0xFFF57F17)
}

// yellow accent

pub const YELLOW_ACCENT_PRIMARY_VALUE: u32 = 0xFFFFFF00;

pub fn yellow_accent_100() -> (c: Rgba8)
    ensures
        c == Rgba8::spec_init_argb(0xFFFFFF8D),
{
    Rgba8::init_argb(0xFFFFFF8D)
}

pub fn yellow_accent_200() -> (c: Rgba8)
    ensures
        c == Rgba8::spec_init_argb(YELLOW_ACCENT_PRIMARY_VALUE),
{
    Rgba8::init_argb(YELLOW_ACCENT_PRIMARY_VALUE)
}

pub fn yellow_accent_400() -> (c: Rgba8)
    ensures
        c == Rgba8::spec_init_argb(0xFFFFEA00),
{
    Rgba8::init_argb(0xFFFFEA00)
}

pub fn yellow_accent_700() -> (c: Rgba8)
    ensures
        c == Rgba8::spec_init_argb(0xFFFFD600),
{
    Rgba8::init_argb(0xFFFFD600)
}

// amber

pub const AMBER_PRIMARY_VALUE: u32 = 0xFFFFC107;

pub fn amber_50() -> (c: Rgba8)
    ensures
        c == Rgba8::spec_init_argb(0xFFFFF8E1),
{
    Rgba8::init_argb(0xFFFFF8E1)
}

pub fn amber_100() -> (c: Rgba8)
    ensures
        c == Rgba8::spec_init_argb(0xFFFFECB3),
{
    Rgba8::init_argb(0xFFFFECB3)
}

pub fn amber_200() -> (c: Rgba8)
    ensures
        c == Rgba8::spec_init_argb(0xFFFFE082),
{
    Rgba8::init_argb(0xFFFFE082)
}

pub fn amber_300() -> (c: Rgba8)
    ensures
        c == Rgba8::spec_init_argb(0xFFFFD54F),
{
    Rgba8::init_argb(0xFFFFD54F)
}

pub fn amber_400() -> (c: Rgba8)
    ensures
        c == Rgba8::spec_init_argb(0xFFFFCA28),
{
    Rgba8::init_argb(0xFFFFCA28)
}

pub fn amber_500() -> (c: Rgba8)
    ensures
        c == Rgba8::spec_init_argb(AMBER_PRIMARY_VALUE),
{
    Rgba8::init_argb(AMBER_PRIMARY_VALUE)
}

pub fn amber_600() -> (c: Rgba8)
    ensures
        c == Rgba8::spec_init_argb(0xFFFFB300),
{
    Rgba8::init_argb(0xFFFFB300)
}

pub fn amber_700() -> (c: Rgba8)
    ensures
        c == Rgba8::spec_init_argb(0xFFFFA000),
{
    Rgba8::init_argb(0xFFFFA000)
}

pub fn amber_800() -> (c: Rgba8)
    ensures
        c == Rgba8::spec_init_argb(0xFFFF8F00),
{
    Rgba8::init_argb(0xFFFF8F00)
}

pub fn amber_900() -> (c: Rgba8)
    ensures
        c == Rgba8::spec_init_argb(0xFFFF6F00),
{
    Rgba8::init_argb(0xFFFF6F00)
}

// amber accent

pub const AMBER_ACCENT_PRIMARY_VALUE: u32 = 0xFFFFD740;

pub fn amber_accent_100() -> (c: Rgba8)
    ensures
        c == Rgba8::spec_init_argb(0xFFFFE57F),
{
    Rgba8::init_argb(0xFFFFE57F)
}

pub fn amber_accent_200() -> (c: Rgba8)
    ensures
        c == Rgba8::spec_init_argb(AMBER_ACCENT_PRIMARY_VALUE),
{
    Rgba8::init_argb(AMBER_ACCENT_PRIMARY_VALUE)
}

pub fn amber_accent_400() -> (c: Rgba8)
    ensures
        c == Rgba8::spec_init_argb(0xFFFFC400),
{
    Rgba8::init_argb(0xFFFFC400)
}

pub fn amber_accent_700() -> (c: Rgba8)
    ensures
        c == Rgba8::spec_init_argb(0xFFFFAB00),
{
    Rgba8::init_argb(0xFFFFAB00)
}

// orange

pub const ORANGE_PRIMARY_VALUE: u32 = 0xFFFF9800;

pub fn orange_50() -> (c: Rgba8)
    ensures
        c == Rgba8::spec_init_argb(0xFFFFF3E0),
{
    Rgba8::init_argb(0xFFFFF3E0)
}

pub fn orange_100() -> (c: Rgba8)
    ensures
        c == Rgba8::spec_init_argb(0xFFFFE0B2),
{
    Rgba8::init_argb(0xFFFFE0B2)
}

pub fn orange_200() -> (c: Rgba8)
    ensures
        c == Rgba8::spec_init_argb(0xFFFFCC80),
{
    Rgba8::init_argb(0xFFFFCC80)
}

pub fn orange_300() -> (c: Rgba8)
    ensures
        c == Rgba8::spec_init_argb(0xFFFFB74D),
{
    Rgba8::init_argb(0xFFFFB74D)
}

pub fn orange_400() -> (c: Rgba8)
    ensures
        c == Rgba8::spec_init_argb(0xFFFFA726),
{
    Rgba8::init_argb(0xFFFFA726)
}

pub fn orange_500() -> (c: Rgba8)
    ensures
        c == Rgba8::spec_init_argb(ORANGE_PRIMARY_VALUE),
{
    Rgba8::init_argb(ORANGE_PRIMARY_VALUE)
}

pub fn orange_600() -> (c: Rgba8)
    ensures
        c == Rgba8::spec_init_argb(0xFFFB8C00),
{
    Rgba8::init_argb(0xFFFB8C00)
}

pub fn orange_700() -> (c: Rgba8)
    ensures
        c == Rgba8::spec_init_argb(0xFFF57C00),
{
    Rgba8::init_argb(0xFFF57C00)
}

pub fn orange_800() -> (c: Rgba8)
    ensures
        c == Rgba8::spec_init_argb(0xFFEF6C00),
{
    Rgba8::init_argb(0xFFEF6C00)
}

pub fn orange_900() -> (c: Rgba8)
    ensures
        c == Rgba8::spec_init_argb(0xFFE65100),
{
    Rgba8::init_argb(0xFFE65100)
}

// orange accent

pub const ORANGE_ACCENT_PRIMARY_VALUE: u32 = 0xFFFFAB40;

pub fn orange_accent_100() -> (c: Rgba8)
    ensures
        c == Rgba8::spec_init_argb(0xFFFFD180),
{
    Rgba8::init_argb(0xFFFFD180)
}

pub fn orange_accent_200() -> (c: Rgba8)
    ensures
        c == Rgba8::spec_init_argb(ORANGE_ACCENT_PRIMARY_VALUE),
{
    Rgba8::init_argb(ORANGE_ACCENT_PRIMARY_VALUE)
}

pub fn orange_accent_400() -> (c: Rgba8)
    ensures
        c == Rgba8::spec_init_argb(0xFFFF9100),
{
    Rgba8::init_argb(0xFFFF9100)
}

pub fn orange_accent_700() -> (c: Rgba8)
    ensures
        c == Rgba8::spec_init_argb(0xFFFF6D00),
{
    Rgba8::init_argb(0xFFFF6D00)
}

// deep orange

pub const DEEP_ORANGE_PRIMARY_VALUE: u32 = 0xFFFF5722;

pub fn deep_orange_50() -> (c: Rgba8)
    ensures
        c == Rgba8::spec_init_argb(0xFFFBE9E7),
{
    Rgba8::init_argb(0xFFFBE9E7)
}

pub fn deep_orange_100() -> (c: Rgba8)
    ensures
        c == Rgba8::spec_init_argb(0xFFFFCCBC),
{
    Rgba8::init_argb(0xFFFFCCBC)
}

pub fn deep_orange_200() -> (c: Rgba8)
    ensures
        c == Rgba8::spec_init_argb(0xFFFFAB91),
{
    Rgba8::init_argb(0xFFFFAB91)
}

pub fn deep_orange_300() -> (c: Rgba8)
    ensures
        c == Rgba8::spec_init_argb(0xFFFF8A65),
{
    Rgba8::init_argb(0xFFFF8A65)
}

pub fn deep_orange_400() -> (c: Rgba8)
    ensures
        c == Rgba8::spec_init_argb(0xFFFF7043),
{
    Rgba8::init_argb(0xFFFF7043)
}

pub fn deep_orange_500() -> (c: Rgba8)
    ensures
        c == Rgba8::spec_init_argb(DEEP_ORANGE_PRIMARY_VALUE),
{
    Rgba8::init_argb(DEEP_ORANGE_PRIMARY_VALUE)
}

pub fn deep_orange_600() -> (c: Rgba8)
    ensures
        c == Rgba8::spec_init_argb(0xFFF4511E),
{
    Rgba8::init_argb(0xFFF4511E)
}

pub fn deep_orange_700() -> (c: Rgba8)
    ensures
        c == Rgba8::spec_init_argb(0xFFE64A19),
{
    Rgba8::init_argb(0xFFE64A19)
}

pub fn deep_orange_800() -> (c: Rgba8)
    ensures
        c == Rgba8::spec_init_argb(0xFFD84315),
{
    Rgba8::init_argb(0xFFD84315)
}

pub fn deep_orange_900() -> (c: Rgba8)
    ensures
        c == Rgba8::spec_init_argb(0xFFBF360C),
{
    Rgba8::init_argb(0xFFBF360C)
}

// deep orange accent

pub const DEEP_ORANGE_ACCENT_PRIMARY_VALUE: u32 = 0xFFFF6E40;

pub fn deep_orange_accent_100() -> (c: Rgba8)
    ensures
        c == Rgba8::spec_init_argb(0xFFFF9E80),
{
    Rgba8::init_argb(0xFFFF9E80)
}

pub fn deep_orange_accent_200() -> (c: Rgba8)
    ensures
        c == Rgba8::spec_init_argb(DEEP_ORANGE_ACCENT_PRIMARY_VALUE),
{
    Rgba8::init_argb(DEEP_ORANGE_ACCENT_PRIMARY_VALUE)
}

pub fn deep_orange_accent_400() -> (c: Rgba8)
    ensures
        c == Rgba8::spec_init_argb(0xFFFF3D00),
{
    Rgba8::init_argb(0xFFFF3D00)
}

pub fn deep_orange_accent_700() -> (c: Rgba8)
    ensures
        c == Rgba8::spec_init_argb(0xFFDD2C00),
{
    Rgba8::init_argb(0xFFDD2C00)
}

// brown

pub const BROWN_PRIMARY_VALUE: u32 = 0xFF795548;

pub fn brown_50() -> (c: Rgba8)
    ensures
        c == Rgba8::spec_init_argb(0xFFEFEBE9),
{
    Rgba8::init_argb(0xFFEFEBE9)
}

pub fn brown_100() -> (c: Rgba8)
    ensures
        c == Rgba8::spec_init_argb(0xFFD7CCC8),
{
    Rgba8::init_argb(0xFFD7CCC8)
}

pub fn brown_200() -> (c: Rgba8)
    ensures
        c == Rgba8::spec_init_argb(0xFFBCAAA4),
{
    Rgba8::init_argb(0xFFBCAAA4)
}

pub fn brown_300() -> (c: Rgba8)
    ensures
        c == Rgba8::spec_init_argb(0xFFA1887F),
{
    Rgba8::init_argb(0xFFA1887F)
}

pub fn brown_400() -> (c: Rgba8)
    ensures
        c == Rgba8::spec_init_argb(0xFF8D6E63),
{
    Rgba8::init_argb(0xFF8D6E63)
}

pub fn brown_500() -> (c: Rgba8)
    ensures
        c == Rgba8::spec_init_argb(BROWN_PRIMARY_VALUE),
{
    Rgba8::init_argb(BROWN_PRIMARY_VALUE)
}

pub fn brown_600() -> (c: Rgba8)
    ensures
        c == Rgba8::spec_init_argb(0xFF6D4C41),
{
    Rgba8::init_argb(0xFF6D4C41)
}

pub fn brown_700() -> (c: Rgba8)
    ensures
        c == Rgba8::spec_init_argb(0xFF5D4037),
{
    Rgba8::init_argb(0xFF5D4037)
}

pub fn brown_800() -> (c: Rgba8)
    ensures
        c == Rgba8::spec_init_argb(0xFF4E342E),
{
    Rgba8::init_argb(0xFF4E342E)
}

pub fn brown_900() -> (c: Rgba8)
    ensures
        c == Rgba8::spec_init_argb(0xFF3E2723),
{
    Rgba8::init_argb(0xFF3E2723)
}

// grey

pub const GREY_PRIMARY_VALUE: u32 = 0xFF9E9E9E;

pub fn grey_50() -> (c: Rgba8)
    ensures
        c == Rgba8::spec_init_argb(0xFFFAFAFA),
{
    Rgba8::init_argb(0xFFFAFAFA)
}

pub fn grey_100() -> (c: Rgba8)
    ensures
        c == Rgba8::spec_init_argb(0xFFF5F5F5),
{
    Rgba8::init_argb(0xFFF5F5F5)
}

pub fn grey_200() -> (c: Rgba8)
    ensures
        c == Rgba8::spec_init_argb(0xFFEEEEEE),
{
    Rgba8::init_argb(0xFFEEEEEE)
}

pub fn grey_300() -> (c: Rgba8)
    ensures
        c == Rgba8::spec_init_argb(0xFFE0E0E0),
{
    Rgba8::init_argb(0xFFE0E0E0)
}

pub fn grey_350() -> (c: Rgba8)
    ensures
        c == Rgba8::spec_init_argb(0xFFD6D6D6),
{
    Rgba8::init_argb(0xFFD6D6D6)
}

pub fn grey_400() -> (c: Rgba8)
    ensures
        c == Rgba8::spec_init_argb(0xFFBDBDBD),
{
    Rgba8::init_argb(0xFFBDBDBD)
}

pub fn grey_500() -> (c: Rgba8)
    ensures
        c == Rgba8::spec_init_argb(GREY_PRIMARY_VALUE),
{
    Rgba8::init_argb(GREY_PRIMARY_VALUE)
}

pub fn grey_600() -> (c: Rgba8)
    ensures
        c == Rgba8::spec_init_argb(0xFF757575),
{
    Rgba8::init_argb(0xFF757575)
}

pub fn grey_700() -> (c: Rgba8)
    ensures
        c == Rgba8::spec_init_argb(0xFF616161),
{
    Rgba8::init_argb(0xFF616161)
}

pub fn grey_800() -> (c: Rgba8)
    ensures
        c == Rgba8::spec_init_argb(0xFF424242),
{
    Rgba8::init_argb(0xFF424242)
}

pub fn grey_850() -> (c: Rgba8)
    ensures
        c == Rgba8::spec_init_argb(0xFF303030),
{
    Rgba8::init_argb(0xFF303030)
}

pub fn grey_900() -> (c: Rgba8)
    ensures
        c == Rgba8::spec_init_argb(0xFF212121),
{
    Rgba8::init_argb(0xFF212121)
}

// blue grey

pub const BLUE_GREY_PRIMARY_VALUE: u32 = 0xFF607D8B;

pub fn blue_grey_50() -> (c: Rgba8)
    ensures
        c == Rgba8::spec_init_argb(0xFFECEFF1),
{
    Rgba8::init_argb(0xFFECEFF1)
}

pub fn blue_grey_100() -> (c: Rgba8)
    ensures
        c == Rgba8::spec_init_argb(0xFFCFD8DC),
{
    Rgba8::init_argb(0xFFCFD8DC)
}

pub fn blue_grey_200() -> (c: Rgba8)
    ensures
        c == Rgba8::spec_init_argb(0xFFB0BEC5),
{
    Rgba8::init_argb(0xFFB0BEC5)
}

pub fn blue_grey_300() -> (c: Rgba8)
    ensures
        c == Rgba8::spec_init_argb(0xFF90A4AE),
{
    Rgba8::init_argb(0xFF90A4AE)
}

pub fn blue_grey_400() -> (c: Rgba8)
    ensures
        c == Rgba8::spec_init_argb(0xFF78909C),
{
    Rgba8::init_argb(0xFF78909C)
}

pub fn blue_grey_500() -> (c: Rgba8)
    ensures
        c == Rgba8::spec_init_argb(BLUE_GREY_PRIMARY_VALUE),
{
    Rgba8::init_argb(BLUE_GREY_PRIMARY_VALUE)
}

pub fn blue_grey_600() -> (c: Rgba8)
    ensures
        c == Rgba8::spec_init_argb(0xFF546E7A),
{
    Rgba8::init_argb(0xFF546E7A)
}

pub fn blue_grey_700() -> (c: Rgba8)
    ensures
        c == Rgba8::spec_init_argb(0xFF455A64),
{
    Rgba8::init_argb(0xFF455A64)
}

pub fn blue_grey_800() -> (c: Rgba8)
    ensures
        c == Rgba8::spec_init_argb(0xFF37474F),
{
    Rgba8::init_argb(0xFF37474F)
}

pub fn blue_grey_900() -> (c: Rgba8)
    ensures
        c == Rgba8::spec_init_argb(0xFF263238),
{
    Rgba8::init_argb(0xFF263238)
}

} // verus!
