//! Pixel formats by their FourCC, and the player command for a geometry.

use crate::format::VideoFormat;
use crate::text;
use vstd::prelude::*;

verus! {

/// The four characters of a FourCC: its bytes, lowest first.
pub open spec fn letters(fourcc: u32) -> Seq<char> {
    seq![
        (fourcc as int % 0x100) as char,
        (fourcc as int / 0x100 % 0x100) as char,
        (fourcc as int / 0x1_0000 % 0x100) as char,
        (fourcc as int / 0x100_0000) as char,
    ]
}

/// A graphic ASCII character or a space.
pub open spec fn printable(c: char) -> bool {
    ' ' <= c <= '~'
}

/// `s` without the spaces at its end.
pub open spec fn trimmed(s: Seq<char>) -> Seq<char>
    decreases s.len(),
{
    if s.len() > 0 && s.last() == ' ' {
        trimmed(s.drop_last())
    } else {
        s
    }
}

/// How a FourCC is written: its letters without trailing spaces, `zero` for 0, and
/// the number in hexadecimal if a letter is not printable.
pub open spec fn fourcc_text(fourcc: u32, zero: Seq<char>) -> Seq<char> {
    if fourcc == 0 {
        zero
    } else if forall|i: int| 0 <= i < 4 ==> printable(#[trigger] letters(fourcc)[i]) {
        trimmed(letters(fourcc))
    } else {
        "0x"@ + text::hex8(fourcc)
    }
}

/// The characters of a FourCC.
fn letters_of(fourcc: u32) -> (v: [char; 4])
    ensures
        v@ == letters(fourcc),
{
    let a: u8 = (fourcc % 0x100) as u8;
    let b: u8 = (fourcc / 0x100 % 0x100) as u8;
    let c: u8 = (fourcc / 0x1_0000 % 0x100) as u8;
    let d: u8 = (fourcc / 0x100_0000) as u8;
    let v: [char; 4] = [a as char, b as char, c as char, d as char];
    assert(v@ =~= letters(fourcc));
    v
}

/// Writes a FourCC.
fn write_fourcc(fourcc: u32, zero: &str) -> (s: String)
    ensures
        s@ == fourcc_text(fourcc, zero@),
{
    if fourcc == 0 {
        return zero.to_owned();
    }
    let v: [char; 4] = letters_of(fourcc);
    let mut all: bool = true;
    let mut i: usize = 0;
    while i < 4
        invariant
            i <= 4,
            v@ == letters(fourcc),
            all == (forall|k: int| 0 <= k < i ==> printable(#[trigger] letters(fourcc)[k])),
        decreases 4 - i,
    {
        let c: char = v[i];
        if !(' ' <= c && c <= '~') {
            all = false;
            assert(!printable(letters(fourcc)[i as int]));
        }
        i = i + 1;
    }
    let mut s: String = String::new();
    if all {
        let mut n: usize = 4;
        proof {
            assert(v@.take(4) =~= letters(fourcc));
        }
        while n > 0 && v[n - 1] == ' '
            invariant
                n <= 4,
                v@.len() == 4,
                trimmed(v@.take(n as int)) == trimmed(letters(fourcc)),
            decreases n,
        {
            assert(v@.take(n as int).drop_last() =~= v@.take(n - 1));
            n = n - 1;
        }
        let mut k: usize = 0;
        assert(v@.take(0) =~= Seq::<char>::empty());
        while k < n
            invariant
                k <= n <= 4,
                v@.len() == 4,
                s@ == v@.take(k as int),
            decreases n - k,
        {
            s.push(v[k]);
            k = k + 1;
            assert(s@ =~= v@.take(k as int));
        }
    } else {
        s.append("0x");
        text::push_hex8(&mut s, fourcc);
        assert(s@ =~= "0x"@ + text::hex8(fourcc));
    }
    s
}

/// A FourCC for the host's messages.
pub fn fourcc_string(fourcc: u32) -> (s: String)
    ensures
        s@ == fourcc_text(fourcc, "RGB/BI_RGB"@),
{
    write_fourcc(fourcc, "RGB/BI_RGB")
}

/// A FourCC for the guest's messages.
pub fn fourcc_str(fourcc: u32) -> (s: String)
    ensures
        s@ == fourcc_text(fourcc, "RGB"@),
{
    write_fourcc(fourcc, "RGB")
}

/// The FourCC with these four letters.
pub open spec fn code_of(a: char, b: char, c: char, d: char) -> int {
    a as int + 0x100 * (b as int) + 0x1_0000 * (c as int) + 0x100_0000 * (d as int)
}

/// The player's name of the pixel format of a FourCC, if it has one.
pub open spec fn mp_format(fourcc: u32) -> Option<Seq<char>> {
    if fourcc == code_of('Y', 'U', 'Y', '2') || fourcc == code_of('Y', 'U', 'Y', 'V') {
        Some("yuyv422"@)
    } else if fourcc == code_of('U', 'Y', 'V', 'Y') {
        Some("uyvy422"@)
    } else if fourcc == code_of('Y', 'V', 'Y', 'U') {
        Some("yvyu422"@)
    } else if fourcc == code_of('N', 'V', '1', '2') {
        Some("nv12"@)
    } else if fourcc == code_of('N', 'V', '2', '1') {
        Some("nv21"@)
    } else if fourcc == code_of('Y', 'V', '1', '2') || fourcc == code_of('I', '4', '2', '0')
        || fourcc == code_of('I', 'Y', 'U', 'V') {
        Some("yuv420p"@)
    } else if fourcc == code_of('P', '0', '1', '0') {
        Some("p010"@)
    } else {
        None
    }
}

/// Whether a FourCC is the one with these four letters.
fn is_code(v: &[char; 4], a: char, b: char, c: char, d: char) -> (yes: bool)
    ensures
        yes == (v@ == seq![a, b, c, d]),
{
    let yes: bool = v[0] == a && v[1] == b && v[2] == c && v[3] == d;
    proof {
        if yes {
            assert(v@ =~= seq![a, b, c, d]);
        }
    }
    yes
}

/// A number of four bytes has exactly these as its digits to the base 256.
proof fn lemma_four_bytes(n: int, a: int, b: int, c: int, d: int)
    requires
        0 <= n < 0x1_0000_0000,
        0 <= a < 0x100,
        0 <= b < 0x100,
        0 <= c < 0x100,
        0 <= d < 0x100,
    ensures
        (n % 0x100 == a && n / 0x100 % 0x100 == b && n / 0x1_0000 % 0x100 == c && n / 0x100_0000
            == d) == (n == a + 0x100 * b + 0x1_0000 * c + 0x100_0000 * d),
{
    let n1 = n / 0x100;
    let n2 = n1 / 0x100;
    let n3 = n2 / 0x100;
    assert(n / 0x1_0000 == n2);
    assert(n / 0x100_0000 == n3);
    assert(n == 0x100 * n1 + n % 0x100);
    assert(n1 == 0x100 * n2 + n1 % 0x100);
    assert(n2 == 0x100 * n3 + n2 % 0x100);
}

proof fn lemma_code(fourcc: u32, a: char, b: char, c: char, d: char)
    requires
        a <= '~',
        b <= '~',
        c <= '~',
        d <= '~',
    ensures
        (letters(fourcc) == seq![a, b, c, d]) == (fourcc == code_of(a, b, c, d)),
{
    let n = fourcc as int;
    let v = letters(fourcc);
    let s = seq![a, b, c, d];
    lemma_four_bytes(n, a as int, b as int, c as int, d as int);
    assert(v[0] as int == n % 0x100);
    assert(v[1] as int == n / 0x100 % 0x100);
    assert(v[2] as int == n / 0x1_0000 % 0x100);
    assert(v[3] as int == n / 0x100_0000);
    if v == s {
        assert(s[0] == a && s[1] == b && s[2] == c && s[3] == d);
    }
    if fourcc == code_of(a, b, c, d) {
        assert(v =~= s);
    }
}

/// Gives the player's name of the pixel format of a FourCC.
pub fn mpv_mp_format(fourcc: u32) -> (r: Option<&'static str>)
    ensures
        r is Some == mp_format(fourcc) is Some,
        r matches Some(name) ==> Some(name@) == mp_format(fourcc),
{
    let v: [char; 4] = letters_of(fourcc);
    proof {
        lemma_code(fourcc, 'Y', 'U', 'Y', '2');
        lemma_code(fourcc, 'Y', 'U', 'Y', 'V');
        lemma_code(fourcc, 'U', 'Y', 'V', 'Y');
        lemma_code(fourcc, 'Y', 'V', 'Y', 'U');
        lemma_code(fourcc, 'N', 'V', '1', '2');
        lemma_code(fourcc, 'N', 'V', '2', '1');
        lemma_code(fourcc, 'Y', 'V', '1', '2');
        lemma_code(fourcc, 'I', '4', '2', '0');
        lemma_code(fourcc, 'I', 'Y', 'U', 'V');
        lemma_code(fourcc, 'P', '0', '1', '0');
    }
    if is_code(&v, 'Y', 'U', 'Y', '2') || is_code(&v, 'Y', 'U', 'Y', 'V') {
        Some("yuyv422")
    } else if is_code(&v, 'U', 'Y', 'V', 'Y') {
        Some("uyvy422")
    } else if is_code(&v, 'Y', 'V', 'Y', 'U') {
        Some("yvyu422")
    } else if is_code(&v, 'N', 'V', '1', '2') {
        Some("nv12")
    } else if is_code(&v, 'N', 'V', '2', '1') {
        Some("nv21")
    } else if is_code(&v, 'Y', 'V', '1', '2') || is_code(&v, 'I', '4', '2', '0') || is_code(
        &v,
        'I',
        'Y',
        'U',
        'V',
    ) {
        Some("yuv420p")
    } else if is_code(&v, 'P', '0', '1', '0') {
        Some("p010")
    } else {
        None
    }
}

/// A blank with a hash sign behind it: a shell takes what follows for a comment.
pub open spec fn opens_comment(s: Seq<char>) -> bool {
    exists|k: int| 0 <= k < s.len() - 1 && #[trigger] s[k] == ' ' && s[k + 1] == '#'
}

/// A FourCC for the player, which takes letters or a number: as for the host's messages,
/// but as a number where the letters would open a comment.
pub open spec fn player_code(fourcc: u32) -> Seq<char> {
    if opens_comment(letters(fourcc)) {
        "0x"@ + text::hex8(fourcc)
    } else {
        fourcc_text(fourcc, "RGB/BI_RGB"@)
    }
}

/// Writes a FourCC for the player.
fn write_player_code(fourcc: u32) -> (s: String)
    ensures
        s@ == player_code(fourcc),
{
    let v: [char; 4] = letters_of(fourcc);
    if (v[0] == ' ' && v[1] == '#') || (v[1] == ' ' && v[2] == '#') || (v[2] == ' ' && v[3]
        == '#') {
        proof {
            let k: int = if v[0] == ' ' && v[1] == '#' {
                0
            } else if v[1] == ' ' && v[2] == '#' {
                1
            } else {
                2
            };
            assert(letters(fourcc)[k] == ' ' && letters(fourcc)[k + 1] == '#');
        }
        let mut s: String = String::new();
        s.append("0x");
        text::push_hex8(&mut s, fourcc);
        assert(s@ =~= "0x"@ + text::hex8(fourcc));
        s
    } else {
        assert(!opens_comment(letters(fourcc)));
        fourcc_string(fourcc)
    }
}

/// The player's option for the pixel format of a FourCC: by the player's name for it or,
/// if it has none, by the FourCC itself.
pub open spec fn format_option(fourcc: u32) -> Seq<char> {
    match mp_format(fourcc) {
        Some(name) => "--demuxer-rawvideo-mp-format="@ + name,
        None => "--demuxer-rawvideo-format="@ + player_code(fourcc),
    }
}

/// The player command for a geometry and a pipe.
pub open spec fn player_command(vf: VideoFormat, fifo: Seq<char>) -> Seq<char> {
    "mpv --demuxer=rawvideo --demuxer-rawvideo-w="@ + text::decimal(vf.width as nat)
        + " --demuxer-rawvideo-h="@ + text::decimal(vf.height as nat) + " "@ + format_option(
        vf.fourcc,
    ) + " --untimed --profile=low-latency "@ + fifo
}

/// Writes a ready-to-run player command for the published geometry.
pub fn mpv_command(vf: &VideoFormat, fifo: &str) -> (s: String)
    ensures
        s@ == player_command(*vf, fifo@),
{
    let mut s: String = "mpv --demuxer=rawvideo --demuxer-rawvideo-w=".to_owned();
    text::push_decimal(&mut s, vf.width as u64);
    s.append(" --demuxer-rawvideo-h=");
    text::push_decimal(&mut s, vf.height as u64);
    s.append(" ");
    let ghost before = s@;
    match mpv_mp_format(vf.fourcc) {
        Some(name) => {
            s.append("--demuxer-rawvideo-mp-format=");
            s.append(name);
            assert(s@ =~= before + format_option(vf.fourcc));
        },
        None => {
            s.append("--demuxer-rawvideo-format=");
            let code: String = write_player_code(vf.fourcc);
            s.append(code.as_str());
            assert(s@ =~= before + format_option(vf.fourcc));
        },
    }
    s.append(" --untimed --profile=low-latency ");
    s.append(fifo);
    s
}

/// Trimming cuts at the end only.
proof fn lemma_trimmed(s: Seq<char>)
    ensures
        trimmed(s).len() <= s.len(),
        trimmed(s) == s.take(trimmed(s).len() as int),
    decreases s.len(),
{
    if s.len() > 0 && s.last() == ' ' {
        lemma_trimmed(s.drop_last());
        let n = trimmed(s).len() as int;
        assert(s.drop_last().take(n) =~= s.take(n));
    } else {
        assert(s.take(s.len() as int) =~= s);
    }
}

/// No FourCC opens a comment in the player command: a shell reads the options behind
/// the pixel format too.
pub proof fn the_format_option_opens_no_comment(fourcc: u32)
    ensures
        forall|k: int|
            0 <= k < format_option(fourcc).len() - 1 && #[trigger] format_option(fourcc)[k] == ' '
                ==> format_option(fourcc)[k + 1] != '#',
        !opens_comment(format_option(fourcc)),
{
    reveal_strlit("--demuxer-rawvideo-mp-format=");
    reveal_strlit("--demuxer-rawvideo-format=");
    reveal_strlit("yuyv422");
    reveal_strlit("uyvy422");
    reveal_strlit("yvyu422");
    reveal_strlit("nv12");
    reveal_strlit("nv21");
    reveal_strlit("yuv420p");
    reveal_strlit("p010");
    reveal_strlit("RGB/BI_RGB");
    reveal_strlit("0x");
    lemma_trimmed(letters(fourcc));
    let s = format_option(fourcc);
    let named = mp_format(fourcc) is Some;
    let n: int = if named {
        "--demuxer-rawvideo-mp-format="@.len() as int
    } else {
        "--demuxer-rawvideo-format="@.len() as int
    };
    assert forall|k: int| 0 <= k < s.len() - 1 && #[trigger] s[k] == ' ' implies s[k + 1] != '#' by {
        if named {
            assert(false);
        } else {
            let code = player_code(fourcc);
            assert(k >= n);
            let j = k - n;
            assert(s[k] == code[j] && s[k + 1] == code[j + 1]);
            if code == "0x"@ + text::hex8(fourcc) {
                if j >= 2 {
                    assert(code[j] == text::hex8(fourcc)[j - 2]);
                }
                assert(false);
            } else if fourcc != 0 {
                assert(code[j] == letters(fourcc)[j]);
                assert(code[j + 1] == letters(fourcc)[j + 1]);
            }
        }
    }
}

/// A FourCC of four printable letters is written as these letters, without the blanks at
/// its end; 0 is written as the given name; any other one as a number that can be read
/// back.
pub proof fn codes_are_written_by_their_letters(
    fourcc: u32,
    zero: Seq<char>,
    a: char,
    b: char,
    c: char,
    d: char,
)
    requires
        a as int <= 0xFF,
        b as int <= 0xFF,
        c as int <= 0xFF,
        d as int <= 0xFF,
        fourcc == a as int + 0x100 * (b as int) + 0x1_0000 * (c as int) + 0x100_0000 * (d as int),
    ensures
        fourcc == 0 ==> fourcc_text(fourcc, zero) == zero,
        fourcc != 0 && ' ' <= a <= '~' && ' ' <= b <= '~' && ' ' <= c <= '~' && ' ' <= d <= '~'
            ==> {
            let s = fourcc_text(fourcc, zero);
            &&& s.len() <= 4
            &&& s == seq![a, b, c, d].take(s.len() as int)
            &&& s.len() > 0 ==> s.last() != ' '
            &&& s.len() <= 3 ==> d == ' '
            &&& s.len() <= 2 ==> c == ' '
            &&& s.len() <= 1 ==> b == ' '
            &&& s.len() == 0 ==> a == ' '
        },
        fourcc != 0 && !(' ' <= a <= '~' && ' ' <= b <= '~' && ' ' <= c <= '~' && ' ' <= d <= '~')
            ==> fourcc_text(fourcc, zero) == seq!['0', 'x'] + text::hex8(fourcc),
{
    let n = fourcc as int;
    let v = letters(fourcc);
    lemma_four_bytes(n, a as int, b as int, c as int, d as int);
    assert(v[0] as int == n % 0x100);
    assert(v[1] as int == n / 0x100 % 0x100);
    assert(v[2] as int == n / 0x1_0000 % 0x100);
    assert(v[3] as int == n / 0x100_0000);
    assert(v =~= seq![a, b, c, d]);
    lemma_trimmed(v);
    lemma_trimmed_blanks(v);
    assert(v[0] == a && v[1] == b && v[2] == c && v[3] == d);
    reveal_strlit("0x");
    assert("0x"@ =~= seq!['0', 'x']);
    if ' ' <= a <= '~' && ' ' <= b <= '~' && ' ' <= c <= '~' && ' ' <= d <= '~' {
        assert forall|i: int| 0 <= i < 4 implies printable(#[trigger] v[i]) by {}
    } else if fourcc != 0 {
        let i: int = if !(' ' <= a <= '~') {
            0
        } else if !(' ' <= b <= '~') {
            1
        } else if !(' ' <= c <= '~') {
            2
        } else {
            3
        };
        assert(!printable(v[i]));
    }
}

/// What trimming cuts off is blank, and what is left does not end in a blank.
proof fn lemma_trimmed_blanks(s: Seq<char>)
    ensures
        trimmed(s).len() > 0 ==> trimmed(s).last() != ' ',
        forall|i: int| trimmed(s).len() <= i < s.len() ==> #[trigger] s[i] == ' ',
    decreases s.len(),
{
    if s.len() > 0 && s.last() == ' ' {
        lemma_trimmed_blanks(s.drop_last());
        assert forall|i: int| trimmed(s).len() <= i < s.len() implies #[trigger] s[i] == ' ' by {
            if i < s.len() - 1 {
                assert(s[i] == s.drop_last()[i]);
            }
        }
    }
}

/// The pixel formats that the player has a name for are exactly these.
pub proof fn player_names_are_these(fourcc: u32)
    ensures
        ({
            let v = letters(fourcc);
            let r = mp_format(fourcc);
            &&& r == Some("yuyv422"@) <==> v == seq!['Y', 'U', 'Y', '2'] || v == seq![
                'Y',
                'U',
                'Y',
                'V',
            ]
            &&& r == Some("uyvy422"@) <==> v == seq!['U', 'Y', 'V', 'Y']
            &&& r == Some("yvyu422"@) <==> v == seq!['Y', 'V', 'Y', 'U']
            &&& r == Some("nv12"@) <==> v == seq!['N', 'V', '1', '2']
            &&& r == Some("nv21"@) <==> v == seq!['N', 'V', '2', '1']
            &&& r == Some("yuv420p"@) <==> v == seq!['Y', 'V', '1', '2'] || v == seq![
                'I',
                '4',
                '2',
                '0',
            ] || v == seq!['I', 'Y', 'U', 'V']
            &&& r == Some("p010"@) <==> v == seq!['P', '0', '1', '0']
            &&& r matches Some(name) ==> name == "yuyv422"@ || name == "uyvy422"@ || name
                == "yvyu422"@ || name == "nv12"@ || name == "nv21"@ || name == "yuv420p"@ || name
                == "p010"@
        }),
{
    lemma_code(fourcc, 'Y', 'U', 'Y', '2');
    lemma_code(fourcc, 'Y', 'U', 'Y', 'V');
    lemma_code(fourcc, 'U', 'Y', 'V', 'Y');
    lemma_code(fourcc, 'Y', 'V', 'Y', 'U');
    lemma_code(fourcc, 'N', 'V', '1', '2');
    lemma_code(fourcc, 'N', 'V', '2', '1');
    lemma_code(fourcc, 'Y', 'V', '1', '2');
    lemma_code(fourcc, 'I', '4', '2', '0');
    lemma_code(fourcc, 'I', 'Y', 'U', 'V');
    lemma_code(fourcc, 'P', '0', '1', '0');
    reveal_strlit("yuyv422");
    reveal_strlit("uyvy422");
    reveal_strlit("yvyu422");
    reveal_strlit("nv12");
    reveal_strlit("nv21");
    reveal_strlit("yuv420p");
    reveal_strlit("p010");
    assert("yuyv422"@[0] == 'y' && "yuyv422"@[1] == 'u' && "yuyv422"@[3] == 'v');
    assert("uyvy422"@[0] == 'u');
    assert("yvyu422"@[0] == 'y' && "yvyu422"@[1] == 'v');
    assert("nv12"@[2] == '1' && "nv12"@[0] == 'n');
    assert("nv21"@[2] == '2' && "nv21"@[0] == 'n');
    assert("yuv420p"@[0] == 'y' && "yuv420p"@[1] == 'u' && "yuv420p"@[3] == '4');
    assert("p010"@[0] == 'p');
}

/// The player is told a FourCC as the host's messages spell it, unless its letters hold a
/// blank with a hash sign behind it: then as a number.
pub proof fn player_codes_are_letters_or_numbers(fourcc: u32)
    ensures
        ({
            let v = letters(fourcc);
            let comment = (v[0] == ' ' && v[1] == '#') || (v[1] == ' ' && v[2] == '#') || (v[2]
                == ' ' && v[3] == '#');
            &&& comment ==> player_code(fourcc) == "0x"@ + text::hex8(fourcc)
            &&& !comment ==> player_code(fourcc) == fourcc_text(fourcc, "RGB/BI_RGB"@)
        }),
{
    let v = letters(fourcc);
    if opens_comment(v) {
        let k = choose|k: int| 0 <= k < v.len() - 1 && #[trigger] v[k] == ' ' && v[k + 1] == '#';
        assert(k == 0 || k == 1 || k == 2);
    }
}

/// A part with something before it and something behind it occurs in the whole.
proof fn lemma_inner(s: Seq<char>, a: Seq<char>, part: Seq<char>, b: Seq<char>)
    requires
        s == a + part + b,
    ensures
        text::occurs(part, s),
{
    text::occurrences_can_be_cut_out(part, s);
}

/// The parts of a command, cut where its literals end.
proof fn lemma_command_parts(
    start: Seq<char>,
    w_name: Seq<char>,
    w: Seq<char>,
    blank: Seq<char>,
    h_name: Seq<char>,
    h: Seq<char>,
    name: Seq<char>,
    value: Seq<char>,
    untimed: Seq<char>,
    profile: Seq<char>,
    fifo: Seq<char>,
)
    ensures
        ({
            let s = (start + w_name) + w + (blank + h_name) + h + blank + (name + value) + (untimed
                + profile) + fifo;
            &&& text::occurs(w_name + w + blank, s)
            &&& text::occurs((blank + h_name) + h + blank, s)
            &&& text::occurs((blank + name) + value + untimed, s)
            &&& s.len() >= fifo.len()
            &&& s.skip(s.len() - fifo.len()) == fifo
            &&& s.take(start.len() as int) == start
        }),
{
    let s = (start + w_name) + w + (blank + h_name) + h + blank + (name + value) + (untimed
        + profile) + fifo;
    let tail = (untimed + profile) + fifo;
    let behind_w = h_name + h + blank + (name + value) + tail;
    assert(s =~= start + (w_name + w + blank) + behind_w);
    lemma_inner(s, start, w_name + w + blank, behind_w);
    let before_h = (start + w_name) + w;
    assert(s =~= before_h + ((blank + h_name) + h + blank) + ((name + value) + tail));
    lemma_inner(s, before_h, (blank + h_name) + h + blank, (name + value) + tail);
    let before_name = before_h + (blank + h_name) + h;
    assert(s =~= before_name + ((blank + name) + value + untimed) + (profile + fifo));
    lemma_inner(s, before_name, (blank + name) + value + untimed, profile + fifo);
    assert(s.skip(s.len() - fifo.len()) =~= fifo);
    assert(s.take(start.len() as int) =~= start);
}

/// The player command names the pipe last, and holds the width, the height and the pixel
/// format of the geometry, each as the value of its option: by the player's name for the
/// format where it has one, and by the FourCC otherwise.
pub proof fn player_command_shows_the_geometry(vf: VideoFormat, fifo: Seq<char>)
    ensures
        ({
            let s = player_command(vf, fifo);
            let w = "--demuxer-rawvideo-w="@ + text::decimal(vf.width as nat) + " "@;
            let h = " --demuxer-rawvideo-h="@ + text::decimal(vf.height as nat) + " "@;
            &&& text::occurs(w, s)
            &&& text::occurs(h, s)
            &&& s.len() >= fifo.len()
            &&& s.skip(s.len() - fifo.len()) == fifo
            &&& s.take(23) == "mpv --demuxer=rawvideo "@
            &&& mp_format(vf.fourcc) matches Some(name) ==> text::occurs(
                " --demuxer-rawvideo-mp-format="@ + name + " --untimed "@,
                s,
            )
            &&& mp_format(vf.fourcc) is None ==> text::occurs(
                " --demuxer-rawvideo-format="@ + player_code(vf.fourcc) + " --untimed "@,
                s,
            )
        }),
{
    let start = "mpv --demuxer=rawvideo "@;
    let profile = "--profile=low-latency "@;
    let h_name = "--demuxer-rawvideo-h="@;
    lemma_literals();
    let w = text::decimal(vf.width as nat);
    let h = text::decimal(vf.height as nat);
    let (name, value) = match mp_format(vf.fourcc) {
        Some(name) => ("--demuxer-rawvideo-mp-format="@, name),
        None => ("--demuxer-rawvideo-format="@, player_code(vf.fourcc)),
    };
    lemma_command_parts(
        start,
        "--demuxer-rawvideo-w="@,
        w,
        " "@,
        h_name,
        h,
        name,
        value,
        " --untimed "@,
        profile,
        fifo,
    );
}

/// How the literals of the command are put together.
proof fn lemma_literals()
    ensures
        "mpv --demuxer=rawvideo "@.len() == 23,
        "mpv --demuxer=rawvideo --demuxer-rawvideo-w="@ == "mpv --demuxer=rawvideo "@
            + "--demuxer-rawvideo-w="@,
        " --demuxer-rawvideo-h="@ == " "@ + "--demuxer-rawvideo-h="@,
        " --untimed --profile=low-latency "@ == " --untimed "@ + "--profile=low-latency "@,
        " --demuxer-rawvideo-mp-format="@ == " "@ + "--demuxer-rawvideo-mp-format="@,
        " --demuxer-rawvideo-format="@ == " "@ + "--demuxer-rawvideo-format="@,
{
    reveal_strlit(" ");
    assert("mpv --demuxer=rawvideo --demuxer-rawvideo-w="@ =~= "mpv --demuxer=rawvideo "@
        + "--demuxer-rawvideo-w="@) by {
        reveal_strlit("mpv --demuxer=rawvideo --demuxer-rawvideo-w=");
        reveal_strlit("mpv --demuxer=rawvideo ");
        reveal_strlit("--demuxer-rawvideo-w=");
    }
    assert("mpv --demuxer=rawvideo "@.len() == 23) by {
        reveal_strlit("mpv --demuxer=rawvideo ");
    }
    assert(" --demuxer-rawvideo-h="@ =~= " "@ + "--demuxer-rawvideo-h="@) by {
        reveal_strlit(" --demuxer-rawvideo-h=");
        reveal_strlit("--demuxer-rawvideo-h=");
    }
    assert(" --untimed --profile=low-latency "@ =~= " --untimed "@ + "--profile=low-latency "@) by {
        reveal_strlit(" --untimed --profile=low-latency ");
        reveal_strlit(" --untimed ");
        reveal_strlit("--profile=low-latency ");
    }
    assert(" --demuxer-rawvideo-mp-format="@ =~= " "@ + "--demuxer-rawvideo-mp-format="@) by {
        reveal_strlit(" --demuxer-rawvideo-mp-format=");
        reveal_strlit("--demuxer-rawvideo-mp-format=");
    }
    assert(" --demuxer-rawvideo-format="@ =~= " "@ + "--demuxer-rawvideo-format="@) by {
        reveal_strlit(" --demuxer-rawvideo-format=");
        reveal_strlit("--demuxer-rawvideo-format=");
    }
}

} // verus!
