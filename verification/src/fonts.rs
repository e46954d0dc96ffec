//! The fonts of the window: the packed font and the order in which fonts are asked for glyphs.
use vstd::prelude::*;

verus! {

/// What unpacking the gzip stream `data` gives, where it is intact.
pub uninterp spec fn gunzip_output(data: Seq<u8>) -> Option<Seq<u8>>;

/// `flate2::read::GzDecoder` read to its end: depends on the bytes alone and gives either the whole
/// unpacked content of the first member or an error. The content itself is left to the name.
#[verifier::external_body]
fn gunzip(data: &[u8]) -> (r: Option<Vec<u8>>)
    ensures
        match r {
            Some(v) => gunzip_output(data@) == Some(v@),
            None => gunzip_output(data@) is None,
        },
{
    let mut decoder = flate2::read::GzDecoder::new(data);
    let mut bytes: Vec<u8> = Vec::new();
    match std::io::Read::read_to_end(&mut decoder, &mut bytes) {
        Ok(_) => Some(bytes),
        Err(_) => None,
    }
}

/// The font data that unpacking gave, where there is any.
pub open spec fn usable(unpacked: Option<Seq<u8>>) -> Option<Seq<u8>> {
    match unpacked {
        Some(bytes) => if bytes.len() > 0 {
            Some(bytes)
        } else {
            None
        },
        None => None,
    }
}

/// What a vector of bytes holds, where there is one.
pub open spec fn bytes_of(data: Option<Vec<u8>>) -> Option<Seq<u8>> {
    match data {
        Some(v) => Some(v@),
        None => None,
    }
}

/// Turns down font data that is empty.
pub fn accept_font(unpacked: Option<Vec<u8>>) -> (r: Option<Vec<u8>>)
    ensures
        bytes_of(r) == usable(bytes_of(unpacked)),
        r is Some <==> unpacked is Some && unpacked->0@.len() > 0,
        r is Some ==> r->0@ == unpacked->0@,
{
    match unpacked {
        Some(bytes) => if bytes.len() > 0 {
            Some(bytes)
        } else {
            None
        },
        None => None,
    }
}

/// Unpacks the packed font.
pub fn unpack_font(packed: &[u8]) -> (r: Option<Vec<u8>>)
    ensures
        bytes_of(r) == usable(gunzip_output(packed@)),
        r is Some <==> gunzip_output(packed@) is Some && gunzip_output(packed@)->0.len() > 0,
        r is Some ==> r->0@ == gunzip_output(packed@)->0,
{
    accept_font(gunzip(packed))
}

/// The fonts to ask first: the packed font, and behind it a font of the system.
pub open spec fn first_fonts(packed: bool, system: bool) -> Seq<Seq<char>> {
    (if packed {
        seq!["main"@]
    } else {
        Seq::empty()
    }) + (if system {
        seq!["sys_cjk"@]
    } else {
        Seq::empty()
    })
}

/// Puts the fonts at hand in front of those that a family already asks.
pub fn font_order(family: Vec<String>, packed: bool, system: bool) -> (r: Vec<String>)
    ensures
        crate::text::texts(r@) == first_fonts(packed, system) + crate::text::texts(family@),
{
    let mut r = family;
    if packed {
        r.insert(0, "main".to_owned());
    }
    if system {
        r.insert(
            if packed {
                1
            } else {
                0
            },
            "sys_cjk".to_owned(),
        );
    }
    assert(crate::text::texts(r@) =~= first_fonts(packed, system) + crate::text::texts(family@));
    r
}

/// The number of places where a system font may lie.
pub const SYSTEM_FONT_COUNT: usize = 15;

/// The places where a system font may lie, in the order in which they are tried.
pub open spec fn system_font_path(i: int) -> Seq<char> {
    if i == 0 {
        "C:\\Windows\\Fonts\\msyh.ttc"@
    } else if i == 1 {
        "C:\\Windows\\Fonts\\msyh.ttf"@
    } else if i == 2 {
        "C:\\Windows\\Fonts\\msyhbd.ttc"@
    } else if i == 3 {
        "C:\\Windows\\Fonts\\simhei.ttf"@
    } else if i == 4 {
        "C:\\Windows\\Fonts\\simsun.ttc"@
    } else if i == 5 {
        "C:\\Windows\\Fonts\\Deng.ttf"@
    } else if i == 6 {
        "/System/Library/Fonts/PingFang.ttc"@
    } else if i == 7 {
        "/System/Library/Fonts/Hiragino Sans GB.ttc"@
    } else if i == 8 {
        "/System/Library/Fonts/STHeiti Light.ttc"@
    } else if i == 9 {
        "/System/Library/Fonts/Supplemental/Songti.ttc"@
    } else if i == 10 {
        "/usr/share/fonts/opentype/noto/NotoSansCJK-Regular.ttc"@
    } else if i == 11 {
        "/usr/share/fonts/opentype/noto/NotoSansCJKsc-Regular.otf"@
    } else if i == 12 {
        "/usr/share/fonts/truetype/wqy/wqy-microhei.ttc"@
    } else if i == 13 {
        "/usr/share/fonts/truetype/droid/DroidSansFallbackFull.ttf"@
    } else {
        "/usr/share/fonts/truetype/dejavu/DejaVuSans.ttf"@
    }
}

/// The place to try after `i` others, as long as there is one.
pub fn system_font(i: usize) -> (r: Option<&'static str>)
    ensures
        match r {
            Some(path) => i < SYSTEM_FONT_COUNT && path@ == system_font_path(i as int),
            None => i >= SYSTEM_FONT_COUNT,
        },
{
    match i {
        0 => Some("C:\\Windows\\Fonts\\msyh.ttc"),
        1 => Some("C:\\Windows\\Fonts\\msyh.ttf"),
        2 => Some("C:\\Windows\\Fonts\\msyhbd.ttc"),
        3 => Some("C:\\Windows\\Fonts\\simhei.ttf"),
        4 => Some("C:\\Windows\\Fonts\\simsun.ttc"),
        5 => Some("C:\\Windows\\Fonts\\Deng.ttf"),
        6 => Some("/System/Library/Fonts/PingFang.ttc"),
        7 => Some("/System/Library/Fonts/Hiragino Sans GB.ttc"),
        8 => Some("/System/Library/Fonts/STHeiti Light.ttc"),
        9 => Some("/System/Library/Fonts/Supplemental/Songti.ttc"),
        10 => Some("/usr/share/fonts/opentype/noto/NotoSansCJK-Regular.ttc"),
        11 => Some("/usr/share/fonts/opentype/noto/NotoSansCJKsc-Regular.otf"),
        12 => Some("/usr/share/fonts/truetype/wqy/wqy-microhei.ttc"),
        13 => Some("/usr/share/fonts/truetype/droid/DroidSansFallbackFull.ttf"),
        14 => Some("/usr/share/fonts/truetype/dejavu/DejaVuSans.ttf"),
        _ => None,
    }
}

/// Font data is used exactly where it is there and not empty, and then as it is.
pub proof fn only_empty_fonts_are_turned_down(unpacked: Option<Seq<u8>>)
    ensures
        usable(unpacked) is Some <==> unpacked is Some && unpacked->0.len() > 0,
        usable(unpacked) is Some ==> usable(unpacked) == unpacked,
{
}

/// The packed font, where it is at hand, is asked before every other font; the font of the system
/// comes next; the fonts that a family asked before follow in their order, all of them.
pub proof fn fonts_at_hand_come_first(packed: bool, system: bool, family: Seq<Seq<char>>)
    ensures
        ({
            let order = first_fonts(packed, system) + family;
            let added = order.len() - family.len();
            &&& added == (if packed {
                1int
            } else {
                0int
            }) + (if system {
                1int
            } else {
                0int
            })
            &&& packed ==> order[0] == "main"@
            &&& system ==> order[added - 1] == "sys_cjk"@
            &&& forall|i: int| 0 <= i < family.len() ==> order[added + i] == #[trigger] family[i]
        }),
{
}

/// Whether `path` begins with `folder`.
pub open spec fn lies_under(path: Seq<char>, folder: Seq<char>) -> bool {
    folder.len() <= path.len() && path.take(folder.len() as int) == folder
}

/// The fonts of Windows are tried before those of macOS, and these before those of Linux.
pub proof fn system_fonts_go_by_platform(i: int)
    requires
        0 <= i < SYSTEM_FONT_COUNT,
    ensures
        lies_under(system_font_path(i), "C:\\Windows\\Fonts\\"@) <==> i < 6,
        lies_under(system_font_path(i), "/System/Library/Fonts/"@) <==> 6 <= i < 10,
        lies_under(system_font_path(i), "/usr/share/fonts/"@) <==> 10 <= i,
{
    let path = system_font_path(i);
    reveal_strlit("C:\\Windows\\Fonts\\");
    reveal_strlit("/System/Library/Fonts/");
    reveal_strlit("/usr/share/fonts/");
    reveal_strlit("C:\\Windows\\Fonts\\msyh.ttc");
    reveal_strlit("C:\\Windows\\Fonts\\msyh.ttf");
    reveal_strlit("C:\\Windows\\Fonts\\msyhbd.ttc");
    reveal_strlit("C:\\Windows\\Fonts\\simhei.ttf");
    reveal_strlit("C:\\Windows\\Fonts\\simsun.ttc");
    reveal_strlit("C:\\Windows\\Fonts\\Deng.ttf");
    reveal_strlit("/System/Library/Fonts/PingFang.ttc");
    reveal_strlit("/System/Library/Fonts/Hiragino Sans GB.ttc");
    reveal_strlit("/System/Library/Fonts/STHeiti Light.ttc");
    reveal_strlit("/System/Library/Fonts/Supplemental/Songti.ttc");
    reveal_strlit("/usr/share/fonts/opentype/noto/NotoSansCJK-Regular.ttc");
    reveal_strlit("/usr/share/fonts/opentype/noto/NotoSansCJKsc-Regular.otf");
    reveal_strlit("/usr/share/fonts/truetype/wqy/wqy-microhei.ttc");
    reveal_strlit("/usr/share/fonts/truetype/droid/DroidSansFallbackFull.ttf");
    reveal_strlit("/usr/share/fonts/truetype/dejavu/DejaVuSans.ttf");
    if i < 6 {
        let folder = "C:\\Windows\\Fonts\\"@;
        assert(path.take(folder.len() as int) =~= folder);
        assert(path[0] == 'C');
    } else if i < 10 {
        let folder = "/System/Library/Fonts/"@;
        assert(path.take(folder.len() as int) =~= folder);
        assert(path[1] == 'S');
    } else {
        let folder = "/usr/share/fonts/"@;
        assert(path.take(folder.len() as int) =~= folder);
        assert(path[1] == 'u');
    }
    if lies_under(path, "C:\\Windows\\Fonts\\"@) {
        assert(path.take("C:\\Windows\\Fonts\\"@.len() as int)[0] == path[0]);
    }
    if lies_under(path, "/System/Library/Fonts/"@) {
        assert(path.take("/System/Library/Fonts/"@.len() as int)[1] == path[1]);
        assert(path.take("/System/Library/Fonts/"@.len() as int)[0] == path[0]);
    }
    if lies_under(path, "/usr/share/fonts/"@) {
        assert(path.take("/usr/share/fonts/"@.len() as int)[1] == path[1]);
        assert(path.take("/usr/share/fonts/"@.len() as int)[0] == path[0]);
    }
}

/// The places of system fonts in the order in which they are tried: fonts with the widest use come
/// first on each platform.
pub proof fn system_fonts_are_tried_in_order()
    ensures
        Seq::new(SYSTEM_FONT_COUNT as nat, |i: int| system_font_path(i)) == seq![
            "C:\\Windows\\Fonts\\msyh.ttc"@,
            "C:\\Windows\\Fonts\\msyh.ttf"@,
            "C:\\Windows\\Fonts\\msyhbd.ttc"@,
            "C:\\Windows\\Fonts\\simhei.ttf"@,
            "C:\\Windows\\Fonts\\simsun.ttc"@,
            "C:\\Windows\\Fonts\\Deng.ttf"@,
            "/System/Library/Fonts/PingFang.ttc"@,
            "/System/Library/Fonts/Hiragino Sans GB.ttc"@,
            "/System/Library/Fonts/STHeiti Light.ttc"@,
            "/System/Library/Fonts/Supplemental/Songti.ttc"@,
            "/usr/share/fonts/opentype/noto/NotoSansCJK-Regular.ttc"@,
            "/usr/share/fonts/opentype/noto/NotoSansCJKsc-Regular.otf"@,
            "/usr/share/fonts/truetype/wqy/wqy-microhei.ttc"@,
            "/usr/share/fonts/truetype/droid/DroidSansFallbackFull.ttf"@,
            "/usr/share/fonts/truetype/dejavu/DejaVuSans.ttf"@,
        ],
{
}

} // verus!
