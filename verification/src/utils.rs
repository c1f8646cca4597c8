//! Small helpers: names and sizes for display, icons, session codes and what the system answers.
use vstd::prelude::*;

use crate::bytes;
use crate::clock;
use crate::numbers;
use crate::paths;
use crate::paths::Style;
use crate::text;

verus! {

// ---- names and sizes ----

/// Where the end of a name that is kept in a shortened one begins: four bytes before its end.
pub open spec fn ending(len: int) -> int {
    if len < 4 {
        0
    } else {
        len - 4
    }
}

/// A file name of at most `max_len` bytes, or its first `max_len` and its last four bytes.
pub open spec fn truncated(name: Seq<char>, max_len: nat) -> Seq<char> {
    let b = vstd::utf8::encode_utf8(name);
    if b.len() <= max_len {
        name
    } else {
        vstd::utf8::decode_utf8(b.take(max_len as int)) + "…"@ + vstd::utf8::decode_utf8(
            b.skip(ending(b.len() as int)),
        )
    }
}

/// Whether a name can be cut where [`truncate_filename`] cuts it.
pub open spec fn can_truncate(name: Seq<char>, max_len: nat) -> bool {
    let b = vstd::utf8::encode_utf8(name);
    b.len() > max_len ==> vstd::utf8::is_char_boundary(b, max_len as int)
        && vstd::utf8::is_char_boundary(b, ending(b.len() as int))
}

/// Whether `name` can be cut at both places between two characters.
pub fn truncatable(name: &str, max_len: usize) -> (r: bool)
    ensures
        r == can_truncate(name@, max_len as nat),
{
    let n: usize = name.as_bytes().len();
    let end: usize = if n < 4 {
        0
    } else {
        n - 4
    };
    n <= max_len || (name.is_char_boundary(max_len) && name.is_char_boundary(end))
}

/// Shortens a file name for display.
pub fn truncate_filename(name: &str, max_len: usize) -> (r: String)
    requires
        can_truncate(name@, max_len as nat),
    ensures
        r@ == truncated(name@, max_len as nat),
{
    let n: usize = name.as_bytes().len();
    if n <= max_len {
        return name.to_string();
    }
    let end: usize = if n < 4 {
        0
    } else {
        n - 4
    };
    let (head, _): (&str, &str) = name.split_at(max_len);
    let (_, tail): (&str, &str) = name.split_at(end);
    proof {
        let b = vstd::utf8::encode_utf8(name@);
        vstd::utf8::encode_utf8_decode_utf8(head@);
        vstd::utf8::encode_utf8_decode_utf8(tail@);
        assert(b.subrange(0, max_len as int) =~= b.take(max_len as int));
        assert(b.subrange(end as int, n as int) =~= b.skip(end as int));
    }
    let mut r: String = head.to_string();
    r.append("…");
    r.append(tail);
    r
}

/// A size for display.
pub fn format_size(b: u64) -> (r: String)
    ensures
        r@ == numbers::size_text(b as nat),
{
    numbers::size_string(b)
}

// ---- icons ----

/// The constant `ICON_IMAGE` of the crate `egui_material_icons`: the character U+E3F4.
#[verifier::external_body]
fn image_icon() -> (r: &'static str)
    ensures
        r@ == seq!['\u{e3f4}'],
{
    egui_material_icons::icons::ICON_IMAGE
}

/// The icon of a file by its extension in small letters.
pub open spec fn icon_text(ext: Seq<char>) -> Seq<char> {
    if ext == "pdf"@ {
        "📕"@
    } else if ext == "png"@ || ext == "jpg"@ || ext == "jpeg"@ || ext == "gif"@ || ext == "svg"@
        || ext == "bmp"@ || ext == "webp"@ || ext == "heic"@ {
        seq!['\u{e3f4}']
    } else if ext == "mp3"@ || ext == "wav"@ || ext == "ogg"@ || ext == "flac"@ || ext == "aac"@
        || ext == "m4a"@ {
        "🎵"@
    } else if ext == "mp4"@ || ext == "avi"@ || ext == "mkv"@ || ext == "mov"@ || ext == "webm"@ {
        "🎬"@
    } else if ext == "zip"@ || ext == "tar"@ || ext == "gz"@ || ext == "7z"@ || ext == "rar"@ {
        "📦"@
    } else if ext == "rs"@ || ext == "py"@ || ext == "js"@ || ext == "ts"@ || ext == "cpp"@ || ext
        == "c"@ || ext == "java"@ || ext == "go"@ || ext == "rb"@ || ext == "sql"@ || ext
        == "html"@ || ext == "css"@ || ext == "txt"@ || ext == "md"@ || ext == "log"@ {
        "📄"@
    } else if ext == "doc"@ || ext == "docx"@ {
        "📝"@
    } else if ext == "xls"@ || ext == "xlsx"@ || ext == "csv"@ {
        "📊"@
    } else if ext == "ppt"@ || ext == "pptx"@ {
        "📽️"@
    } else {
        "📁"@
    }
}

/// The icon of a file by its extension in small letters.
pub fn icon_for_extension(ext: &str) -> (r: &'static str)
    ensures
        r@ == icon_text(ext@),
{
    let e: Vec<char> = text::chars_of(ext);
    if text::is_text(&e, "pdf") {
        "📕"
    } else if text::is_text(&e, "png") || text::is_text(&e, "jpg") || text::is_text(&e, "jpeg")
        || text::is_text(&e, "gif") || text::is_text(&e, "svg") || text::is_text(&e, "bmp")
        || text::is_text(&e, "webp") || text::is_text(&e, "heic") {
        image_icon()
    } else if text::is_text(&e, "mp3") || text::is_text(&e, "wav") || text::is_text(&e, "ogg")
        || text::is_text(&e, "flac") || text::is_text(&e, "aac") || text::is_text(&e, "m4a") {
        "🎵"
    } else if text::is_text(&e, "mp4") || text::is_text(&e, "avi") || text::is_text(&e, "mkv")
        || text::is_text(&e, "mov") || text::is_text(&e, "webm") {
        "🎬"
    } else if text::is_text(&e, "zip") || text::is_text(&e, "tar") || text::is_text(&e, "gz")
        || text::is_text(&e, "7z") || text::is_text(&e, "rar") {
        "📦"
    } else if text::is_text(&e, "rs") || text::is_text(&e, "py") || text::is_text(&e, "js")
        || text::is_text(&e, "ts") || text::is_text(&e, "cpp") || text::is_text(&e, "c")
        || text::is_text(&e, "java") || text::is_text(&e, "go") || text::is_text(&e, "rb")
        || text::is_text(&e, "sql") || text::is_text(&e, "html") || text::is_text(&e, "css")
        || text::is_text(&e, "txt") || text::is_text(&e, "md") || text::is_text(&e, "log") {
        "📄"
    } else if text::is_text(&e, "doc") || text::is_text(&e, "docx") {
        "📝"
    } else if text::is_text(&e, "xls") || text::is_text(&e, "xlsx") || text::is_text(&e, "csv") {
        "📊"
    } else if text::is_text(&e, "ppt") || text::is_text(&e, "pptx") {
        "📽️"
    } else {
        "📁"
    }
}

/// The extension of a file name; empty where it has none.
pub open spec fn extension_or_empty(name: Seq<char>, style: Style) -> Seq<char> {
    match paths::extension(name, style) {
        Some(e) => e,
        None => ""@,
    }
}

/// The icon of a file by its name.
pub fn file_icon(name: &str, style: Style) -> (r: &'static str)
    ensures
        r@ == icon_text(text::lowercase(extension_or_empty(name@, style))),
        text::is_ascii(extension_or_empty(name@, style)) ==> r@ == icon_text(
            text::ascii_lower(extension_or_empty(name@, style)),
        ),
{
    let ext: String = match paths::extension_of(name, style) {
        Some(e) => e,
        None => "".to_string(),
    };
    let ext: String = text::lowercased(ext.as_str());
    icon_for_extension(ext.as_str())
}

// ---- session codes ----

/// The characters of a session code: those that are not easily mistaken for each other.
pub open spec fn code_alphabet() -> Seq<char> {
    "ABCDEFGHJKLMNPQRSTUVWXYZ23456789"@
}

/// The state of the generator of session codes after `i` steps from `seed`.
pub open spec fn code_state(seed: nat, i: nat) -> nat
    decreases i,
{
    if i == 0 {
        seed
    } else {
        (code_state(seed, (i - 1) as nat) * 6364136223846793005 + 1442695040888963407)
            % 0x1_0000_0000_0000_0000
    }
}

/// The character `i` of a session code, hyphen not counted.
pub open spec fn code_char(seed: nat, i: nat) -> char {
    code_alphabet()[((code_state(seed, i + 1) / 0x2_0000_0000) % 32) as int]
}

/// The session code made of `seed`: four characters, a hyphen, four characters.
pub open spec fn session_code(seed: nat) -> Seq<char> {
    Seq::new(4, |i: int| code_char(seed, i as nat)) + "-"@ + Seq::new(
        4,
        |i: int| code_char(seed, (i + 4) as nat),
    )
}

/// Whether `s` has the shape of a session code.
pub open spec fn is_session_code(s: Seq<char>) -> bool {
    &&& s.len() == 9
    &&& s[4] == '-'
    &&& forall|i: int| 0 <= i < 9 && i != 4 ==> code_alphabet().contains(#[trigger] s[i])
}

/// Every session code has the shape of one.
pub proof fn session_codes_have_their_shape(seed: nat)
    ensures
        is_session_code(session_code(seed)),
{
    reveal_strlit("ABCDEFGHJKLMNPQRSTUVWXYZ23456789");
    reveal_strlit("-");
    let s = session_code(seed);
    assert forall|i: int| 0 <= i < 9 && i != 4 implies code_alphabet().contains(
        #[trigger] s[i],
    ) by {
        let k = if i < 4 {
            i as nat
        } else {
            (i - 1) as nat
        };
        assert(s[i] == code_char(seed, k));
    }
}

/// The session code made of `seed`.
pub fn session_code_from(seed: u32) -> (r: String)
    ensures
        r@ == session_code(seed as nat),
        is_session_code(r@),
{
    proof {
        reveal_strlit("ABCDEFGHJKLMNPQRSTUVWXYZ23456789");
        reveal_strlit("-");
        session_codes_have_their_shape(seed as nat);
    }
    let alphabet: Vec<char> = text::chars_of("ABCDEFGHJKLMNPQRSTUVWXYZ23456789");
    let mut n: u64 = seed as u64;
    let mut code: String = String::new();
    let mut i: usize = 0;
    let ghost whole = session_code(seed as nat);
    while i < 8
        invariant
            i <= 8,
            alphabet@ == code_alphabet(),
            alphabet@.len() == 32,
            n == code_state(seed as nat, i as nat),
            whole == session_code(seed as nat),
            whole.len() == 9,
            whole[4] == '-',
            code@ == whole.take(
                if i <= 4 {
                    i as int
                } else {
                    i + 1
                },
            ),
        decreases 8 - i,
    {
        if i == 4 {
            code.push('-');
            assert(code@ =~= whole.take(5));
        }
        let ghost before = n;
        n = n.wrapping_mul(6364136223846793005).wrapping_add(1442695040888963407);
        proof {
            let m = 0x1_0000_0000_0000_0000int;
            let a = before * 6364136223846793005;
            vstd::arithmetic::div_mod::lemma_add_mod_noop(a, 1442695040888963407, m);
            assert(n == (a % m + 1442695040888963407) % m);
            assert(1442695040888963407int % m == 1442695040888963407) by (nonlinear_arith)
                requires
                    m == 0x1_0000_0000_0000_0000,
            ;
            assert(n == code_state(seed as nat, (i + 1) as nat));
            assert(n >> 33 == n / 0x2_0000_0000) by (bit_vector);
        }
        let c: char = alphabet[((n >> 33) % 32) as usize];
        assert(c == code_char(seed as nat, i as nat));
        code.push(c);
        i = i + 1;
        assert(code@ =~= whole.take(
            if i <= 4 {
                i as int
            } else {
                i + 1
            },
        ));
    }
    assert(whole.take(9) =~= whole);
    code
}

/// A session code that differs from time to time.
pub fn gen_session_code() -> (r: String)
    ensures
        is_session_code(r@),
        exists|seed: u32| seed < 1_000_000_000 && r@ == #[trigger] session_code(seed as nat),
{
    let seed: u32 = clock::clock_nanos();
    let r: String = session_code_from(seed);
    assert(r@ == session_code(seed as nat));
    r
}

// ---- what the system answers ----

/// The name of a device by what the system's command for it printed, if anything.
pub open spec fn host_text(output: Option<Seq<u8>>) -> Seq<char> {
    match output {
        Some(b) => if vstd::utf8::valid_utf8(b) {
            text::trim(vstd::utf8::decode_utf8(b))
        } else {
            text::trim("this-device"@)
        },
        None => text::trim("this-device"@),
    }
}

/// The name of this device by what the system's command for it printed, if anything.
pub fn hostname_from(output: Option<Vec<u8>>) -> (r: String)
    ensures
        r@ == host_text(
            match output {
                Some(b) => Some(b@),
                None => None,
            },
        ),
{
    match output {
        Some(b) => match bytes::strict_text(b) {
            Ok(s) => text::trimmed(s.as_str()),
            Err(_) => text::trimmed("this-device"),
        },
        None => text::trimmed("this-device"),
    }
}

/// Whether the name of a desktop theme, in small letters, is that of a dark one.
pub fn is_dark_theme_name(name: &str) -> (r: bool)
    ensures
        r == text::contains_text(name@, "dark"@),
{
    text::has_text(name, "dark")
}

/// Whether the desktop theme whose name the system printed is a dark one.
pub fn desktop_theme_is_dark(output: &[u8]) -> (r: bool)
    ensures
        r == text::contains_text(text::lowercase(bytes::utf8_lossy(output@)), "dark"@),
{
    let name: String = bytes::lossy_text(output);
    let name: String = text::lowercased(name.as_str());
    is_dark_theme_name(name.as_str())
}

/// Whether the style that the system printed is the dark one.
pub fn is_dark_style(style: &str) -> (r: bool)
    ensures
        r == (text::trim(style@) == "Dark"@),
{
    let s: String = text::trimmed(style);
    text::same_text(s.as_str(), "Dark")
}

/// Whether the interface style that the system printed is the dark one.
pub fn interface_style_is_dark(output: &[u8]) -> (r: bool)
    ensures
        r == (text::trim(bytes::utf8_lossy(output@)) == "Dark"@),
{
    let style: String = bytes::lossy_text(output);
    is_dark_style(style.as_str())
}

/// Whether the desktop, named in capital letters, hides tray icons.
pub fn is_gnome(desktop: &str) -> (r: bool)
    ensures
        r == text::contains_text(desktop@, "GNOME"@),
{
    text::has_text(desktop, "GNOME")
}

/// Whether the desktop of this name hides tray icons.
pub fn hides_tray_icons(desktop: &str) -> (r: bool)
    ensures
        r == text::contains_text(text::uppercase(desktop@), "GNOME"@),
{
    let name: String = text::uppercased(desktop);
    is_gnome(name.as_str())
}

// ---- what the calls give ----

/// A name that fits is shown as it is; of a longer one the first bytes and the last four.
pub proof fn ends_of_names_are_kept(name: &str, max_len: usize, r: String)
    requires
        call_ensures(truncate_filename, (name, max_len), r),
        can_truncate(name@, max_len as nat),
        max_len >= 4,
    ensures
        ({
            let b = vstd::utf8::encode_utf8(name@);
            &&& b.len() <= max_len ==> r@ == name@
            &&& b.len() > max_len ==> r@ == vstd::utf8::decode_utf8(b.subrange(0, max_len as int))
                + "…"@ + vstd::utf8::decode_utf8(b.subrange(b.len() - 4, b.len() as int))
        }),
{
    let b = vstd::utf8::encode_utf8(name@);
    if b.len() > max_len {
        assert(b.take(max_len as int) =~= b.subrange(0, max_len as int));
        assert(b.skip(b.len() - 4) =~= b.subrange(b.len() - 4, b.len() as int));
    }
}

/// The icon goes by the extension, in capital or small letters; names with the same one have the
/// same icon.
pub proof fn icons_go_by_extension(
    a: &str,
    b: &str,
    style: Style,
    first: Seq<char>,
    other: Seq<char>,
    ext: Seq<char>,
    large: Seq<char>,
    r: &'static str,
    s: &'static str,
)
    requires
        call_ensures(file_icon, (a, style), r),
        call_ensures(file_icon, (b, style), s),
        a@ == first.push('.') + ext,
        b@ == other.push('.') + large,
        first.len() > 0,
        other.len() > 0,
        text::lacks(ext, '.'),
        text::lacks(large, '.'),
        paths::is_plain(a@, style),
        paths::is_plain(b@, style),
        text::is_ascii(ext),
        text::is_ascii(large),
        text::ascii_lower(ext) == text::ascii_lower(large),
    ensures
        r@ == s@,
{
    paths::numbers_go_before_the_extension(first, ext, 0, style);
    paths::numbers_go_before_the_extension(other, large, 0, style);
}

/// The name that the system printed is taken without the white space around it.
pub proof fn printed_names_are_taken(output: Option<Vec<u8>>, r: String)
    requires
        call_ensures(hostname_from, (output,), r),
    ensures
        r@.len() > 0 ==> !text::is_white_space(r@[0]) && !text::is_white_space(r@.last()),
        output matches Some(b) ==> vstd::utf8::valid_utf8(b@) ==> r@ == text::trim(
            vstd::utf8::decode_utf8(b@),
        ),
        output matches Some(b) ==> !vstd::utf8::valid_utf8(b@) ==> r@ == "this-device"@,
        output is None ==> r@ == "this-device"@,
{
    reveal_strlit("this-device");
    text::lemma_trim_none("this-device"@);
    if output is Some {
        text::trimming_takes_white_space(vstd::utf8::decode_utf8(output->0@));
    }
}

/// A session code has four characters, a hyphen and four characters, none of which is easily
/// mistaken for another: no `I`, `O`, `0` or `1`, and no small letter.
pub proof fn codes_are_legible(seed: u32, r: String, s: String)
    requires
        call_ensures(session_code_from, (seed,), r),
        call_ensures(session_code_from, (seed,), s),
    ensures
        r@.len() == 9,
        r@[4] == '-',
        forall|i: int|
            0 <= i < 9 && i != 4 ==> {
                let c = #[trigger] r@[i];
                ('A' <= c <= 'Z' && c != 'I' && c != 'O') || '2' <= c <= '9'
            },
        r@ == s@,
{
    reveal_strlit("ABCDEFGHJKLMNPQRSTUVWXYZ23456789");
    assert forall|i: int| 0 <= i < 9 && i != 4 implies ({
        let c = #[trigger] r@[i];
        ('A' <= c <= 'Z' && c != 'I' && c != 'O') || '2' <= c <= '9'
    }) by {
        assert(code_alphabet().contains(r@[i]));
        let k = choose|k: int| 0 <= k < code_alphabet().len() && code_alphabet()[k] == r@[i];
    }
}

/// A theme is dark where its name holds the word; an interface is where that is its whole style; a
/// desktop hides tray icons where its name holds `GNOME`.
pub proof fn words_decide(name: &str, dark: bool, style: bool, gnome: bool)
    requires
        call_ensures(is_dark_theme_name, (name,), dark),
        call_ensures(is_dark_style, (name,), style),
        call_ensures(is_gnome, (name,), gnome),
    ensures
        dark <==> exists|a: Seq<char>, b: Seq<char>| #[trigger] (a + "dark"@ + b) == name@,
        style <==> text::trim(name@) == "Dark"@,
        gnome <==> exists|a: Seq<char>, b: Seq<char>| #[trigger] (a + "GNOME"@ + b) == name@,
{
    text::found_parts_are_there(name@, "dark"@);
    text::found_parts_are_there(name@, "GNOME"@);
    if exists|a: Seq<char>, b: Seq<char>| #[trigger] (a + "dark"@ + b) == name@ {
        let (a, b) = choose|a: Seq<char>, b: Seq<char>| #[trigger] (a + "dark"@ + b) == name@;
        text::parts_are_found(a, "dark"@, b);
    }
    if exists|a: Seq<char>, b: Seq<char>| #[trigger] (a + "GNOME"@ + b) == name@ {
        let (a, b) = choose|a: Seq<char>, b: Seq<char>| #[trigger] (a + "GNOME"@ + b) == name@;
        text::parts_are_found(a, "GNOME"@, b);
    }
}

/// Files of a kind have the icon of that kind.
#[verifier::rlimit(50)]
#[verifier::spinoff_prover]
pub proof fn kinds_have_their_icons(ext: &str, r: &'static str)
    requires
        call_ensures(icon_for_extension, (ext,), r),
    ensures
        ext@ == "pdf"@ ==> r@ == "📕"@,
        ext@ == "png"@ || ext@ == "jpg"@ || ext@ == "jpeg"@ || ext@ == "gif"@ || ext@ == "svg"@
            || ext@ == "bmp"@ || ext@ == "webp"@ || ext@ == "heic"@ ==> r@ == seq!['\u{e3f4}'],
        ext@ == "mp3"@ || ext@ == "wav"@ || ext@ == "ogg"@ || ext@ == "flac"@ || ext@ == "aac"@
            || ext@ == "m4a"@ ==> r@ == "🎵"@,
        ext@ == "mp4"@ || ext@ == "avi"@ || ext@ == "mkv"@ || ext@ == "mov"@ || ext@ == "webm"@
            ==> r@ == "🎬"@,
        ext@ == "zip"@ || ext@ == "tar"@ || ext@ == "gz"@ || ext@ == "7z"@ || ext@ == "rar"@ ==> r@
            == "📦"@,
        ext@ == "doc"@ || ext@ == "docx"@ ==> r@ == "📝"@,
        ext@ == "xls"@ || ext@ == "xlsx"@ || ext@ == "csv"@ ==> r@ == "📊"@,
        ext@ == "ppt"@ || ext@ == "pptx"@ ==> r@ == "📽️"@,
        ext@ == "rs"@ || ext@ == "py"@ || ext@ == "js"@ || ext@ == "ts"@ || ext@ == "cpp"@ || ext@
            == "c"@ || ext@ == "java"@ || ext@ == "go"@ || ext@ == "rb"@ || ext@ == "sql"@ || ext@
            == "html"@ || ext@ == "css"@ || ext@ == "txt"@ || ext@ == "md"@ || ext@ == "log"@ ==> r@
            == "📄"@,
        ext@.len() == 0 || ext@.len() > 5 ==> r@ == "📁"@,
{
    reveal_strlit("pdf");
    assert("pdf"@[0] == 'p' && "pdf"@[1] == 'd' && "pdf"@[2] == 'f');
    reveal_strlit("png");
    assert("png"@[0] == 'p' && "png"@[1] == 'n' && "png"@[2] == 'g');
    reveal_strlit("jpg");
    assert("jpg"@[0] == 'j' && "jpg"@[1] == 'p' && "jpg"@[2] == 'g');
    reveal_strlit("jpeg");
    assert("jpeg"@[0] == 'j' && "jpeg"@[1] == 'p' && "jpeg"@[2] == 'e' && "jpeg"@[3] == 'g');
    reveal_strlit("gif");
    assert("gif"@[0] == 'g' && "gif"@[1] == 'i' && "gif"@[2] == 'f');
    reveal_strlit("svg");
    assert("svg"@[0] == 's' && "svg"@[1] == 'v' && "svg"@[2] == 'g');
    reveal_strlit("bmp");
    assert("bmp"@[0] == 'b' && "bmp"@[1] == 'm' && "bmp"@[2] == 'p');
    reveal_strlit("webp");
    assert("webp"@[0] == 'w' && "webp"@[1] == 'e' && "webp"@[2] == 'b' && "webp"@[3] == 'p');
    reveal_strlit("heic");
    assert("heic"@[0] == 'h' && "heic"@[1] == 'e' && "heic"@[2] == 'i' && "heic"@[3] == 'c');
    reveal_strlit("mp3");
    assert("mp3"@[0] == 'm' && "mp3"@[1] == 'p' && "mp3"@[2] == '3');
    reveal_strlit("wav");
    assert("wav"@[0] == 'w' && "wav"@[1] == 'a' && "wav"@[2] == 'v');
    reveal_strlit("ogg");
    assert("ogg"@[0] == 'o' && "ogg"@[1] == 'g' && "ogg"@[2] == 'g');
    reveal_strlit("flac");
    assert("flac"@[0] == 'f' && "flac"@[1] == 'l' && "flac"@[2] == 'a' && "flac"@[3] == 'c');
    reveal_strlit("aac");
    assert("aac"@[0] == 'a' && "aac"@[1] == 'a' && "aac"@[2] == 'c');
    reveal_strlit("m4a");
    assert("m4a"@[0] == 'm' && "m4a"@[1] == '4' && "m4a"@[2] == 'a');
    reveal_strlit("mp4");
    assert("mp4"@[0] == 'm' && "mp4"@[1] == 'p' && "mp4"@[2] == '4');
    reveal_strlit("avi");
    assert("avi"@[0] == 'a' && "avi"@[1] == 'v' && "avi"@[2] == 'i');
    reveal_strlit("mkv");
    assert("mkv"@[0] == 'm' && "mkv"@[1] == 'k' && "mkv"@[2] == 'v');
    reveal_strlit("mov");
    assert("mov"@[0] == 'm' && "mov"@[1] == 'o' && "mov"@[2] == 'v');
    reveal_strlit("webm");
    assert("webm"@[0] == 'w' && "webm"@[1] == 'e' && "webm"@[2] == 'b' && "webm"@[3] == 'm');
    reveal_strlit("zip");
    assert("zip"@[0] == 'z' && "zip"@[1] == 'i' && "zip"@[2] == 'p');
    reveal_strlit("tar");
    assert("tar"@[0] == 't' && "tar"@[1] == 'a' && "tar"@[2] == 'r');
    reveal_strlit("gz");
    assert("gz"@[0] == 'g' && "gz"@[1] == 'z');
    reveal_strlit("7z");
    assert("7z"@[0] == '7' && "7z"@[1] == 'z');
    reveal_strlit("rar");
    assert("rar"@[0] == 'r' && "rar"@[1] == 'a' && "rar"@[2] == 'r');
    reveal_strlit("doc");
    assert("doc"@[0] == 'd' && "doc"@[1] == 'o' && "doc"@[2] == 'c');
    reveal_strlit("docx");
    assert("docx"@[0] == 'd' && "docx"@[1] == 'o' && "docx"@[2] == 'c' && "docx"@[3] == 'x');
    reveal_strlit("xls");
    assert("xls"@[0] == 'x' && "xls"@[1] == 'l' && "xls"@[2] == 's');
    reveal_strlit("xlsx");
    assert("xlsx"@[0] == 'x' && "xlsx"@[1] == 'l' && "xlsx"@[2] == 's' && "xlsx"@[3] == 'x');
    reveal_strlit("csv");
    assert("csv"@[0] == 'c' && "csv"@[1] == 's' && "csv"@[2] == 'v');
    reveal_strlit("ppt");
    assert("ppt"@[0] == 'p' && "ppt"@[1] == 'p' && "ppt"@[2] == 't');
    reveal_strlit("pptx");
    assert("pptx"@[0] == 'p' && "pptx"@[1] == 'p' && "pptx"@[2] == 't' && "pptx"@[3] == 'x');
    reveal_strlit("rs");
    assert("rs"@[0] == 'r' && "rs"@[1] == 's');
    reveal_strlit("py");
    assert("py"@[0] == 'p' && "py"@[1] == 'y');
    reveal_strlit("js");
    assert("js"@[0] == 'j' && "js"@[1] == 's');
    reveal_strlit("ts");
    assert("ts"@[0] == 't' && "ts"@[1] == 's');
    reveal_strlit("cpp");
    assert("cpp"@[0] == 'c' && "cpp"@[1] == 'p' && "cpp"@[2] == 'p');
    reveal_strlit("c");
    assert("c"@[0] == 'c');
    reveal_strlit("java");
    assert("java"@[0] == 'j' && "java"@[1] == 'a' && "java"@[2] == 'v' && "java"@[3] == 'a');
    reveal_strlit("go");
    assert("go"@[0] == 'g' && "go"@[1] == 'o');
    reveal_strlit("rb");
    assert("rb"@[0] == 'r' && "rb"@[1] == 'b');
    reveal_strlit("sql");
    assert("sql"@[0] == 's' && "sql"@[1] == 'q' && "sql"@[2] == 'l');
    reveal_strlit("html");
    assert("html"@[0] == 'h' && "html"@[1] == 't' && "html"@[2] == 'm' && "html"@[3] == 'l');
    reveal_strlit("css");
    assert("css"@[0] == 'c' && "css"@[1] == 's' && "css"@[2] == 's');
    reveal_strlit("txt");
    assert("txt"@[0] == 't' && "txt"@[1] == 'x' && "txt"@[2] == 't');
    reveal_strlit("md");
    assert("md"@[0] == 'm' && "md"@[1] == 'd');
    reveal_strlit("log");
    assert("log"@[0] == 'l' && "log"@[1] == 'o' && "log"@[2] == 'g');
    if ext@ == "csv"@ {
        assert(ext@.len() == 3 && ext@[0] == 'c' && ext@[1] == 's' && ext@[2] == 'v');
        assert(ext@ != "css"@ && ext@ != "cpp"@ && ext@ != "c"@);
    } else if ext@ == "xls"@ || ext@ == "xlsx"@ {
        assert(ext@[0] == 'x');
    }
}

} // verus!
