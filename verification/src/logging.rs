//! Names of Windows console code pages, for the start-up log.

use vstd::prelude::*;

verus! {

/// The name shown for a console code page.
pub open spec fn code_page_label(cp: u32) -> Seq<char> {
    if cp == 65001 {
        "(UTF-8)"@
    } else if cp == 936 {
        "(GBK, Chinese Simplified)"@
    } else if cp == 950 {
        "(BIG5, Chinese Traditional)"@
    } else if cp == 932 {
        "(Shift-JIS, Japanese)"@
    } else if cp == 949 {
        "(EUC-KR, Korean)"@
    } else if cp == 1252 {
        "(Windows-1252, Western Europe)"@
    } else if cp == 437 {
        "(OEM-US)"@
    } else if cp == 855 {
        "(OEM-Cyrillic)"@
    } else if cp == 866 {
        "(OEM-Russian)"@
    } else if cp == 20866 {
        "(KOI8-R)"@
    } else if cp == 28591 {
        "(ISO-8859-1)"@
    } else {
        "(unknown)"@
    }
}

/// The name of a code page, for reading the log.
pub fn code_page_name(cp: u32) -> (r: &'static str)
    ensures
        r@ == code_page_label(cp),
{
    match cp {
        65001 => "(UTF-8)",
        936 => "(GBK, Chinese Simplified)",
        950 => "(BIG5, Chinese Traditional)",
        932 => "(Shift-JIS, Japanese)",
        949 => "(EUC-KR, Korean)",
        1252 => "(Windows-1252, Western Europe)",
        437 => "(OEM-US)",
        855 => "(OEM-Cyrillic)",
        866 => "(OEM-Russian)",
        20866 => "(KOI8-R)",
        28591 => "(ISO-8859-1)",
        _ => "(unknown)",
    }
}

} // verus!
