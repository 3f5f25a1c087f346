//! Encode Linux path components so they can live on Windows filesystems.
//!
//! NTFS rejects `:<>"|?*`, reserved device names (`CON`, `NUL`, ...), and trailing
//! dots/spaces. Debian multiarch files like `libfoo:amd64.list` are common in
//! container layers: unsafe components are hex-encoded as `#bk#` + uppercase hex
//! so unpack succeeds and the original names can be recovered.

use vstd::prelude::*;
use vstd::utf8::*;

use crate::path::{HostPath, PathView};
use crate::text::{self, chars_of, ends_with_char, join, same_text, split, split_any, strip_prefix, to_upper};

verus! {

broadcast use vstd::seq_lib::group_seq_properties;

/// The rules for file names on the machine that stores the files.
#[derive(Debug, Clone, Copy, PartialEq, Eq, Structural)]
pub enum Host {
    /// Every component without `/` and NUL is a legal file name.
    Posix,
    /// Windows NTFS.
    Windows,
}

/// Characters that NTFS rejects in a component.
pub open spec fn rejected_char(c: char) -> bool {
    ||| c == '<'
    ||| c == '>'
    ||| c == ':'
    ||| c == '"'
    ||| c == '/'
    ||| c == '\\'
    ||| c == '|'
    ||| c == '?'
    ||| c == '*'
    ||| (c as u32) <= 0x1f
}

/// Device names that NTFS reserves, with any extension.
pub open spec fn reserved_device(stem: Seq<char>) -> bool {
    ||| stem == "CON"@
    ||| stem == "PRN"@
    ||| stem == "AUX"@
    ||| stem == "NUL"@
    ||| stem == "COM1"@
    ||| stem == "COM2"@
    ||| stem == "COM3"@
    ||| stem == "COM4"@
    ||| stem == "COM5"@
    ||| stem == "COM6"@
    ||| stem == "COM7"@
    ||| stem == "COM8"@
    ||| stem == "COM9"@
    ||| stem == "LPT1"@
    ||| stem == "LPT2"@
    ||| stem == "LPT3"@
    ||| stem == "LPT4"@
    ||| stem == "LPT5"@
    ||| stem == "LPT6"@
    ||| stem == "LPT7"@
    ||| stem == "LPT8"@
    ||| stem == "LPT9"@
}

/// A component that is legal on NTFS as it stands.
pub open spec fn legal_on_windows(name: Seq<char>) -> bool {
    ||| name == Seq::<char>::empty()
    ||| name == "."@
    ||| name == ".."@
    ||| {
        &&& name.last() != ' '
        &&& name.last() != '.'
        &&& forall|i: int| 0 <= i < name.len() ==> !rejected_char(#[trigger] name[i])
        &&& !reserved_device(text::uppered(text::split_at_char(name, '.')[0]))
    }
}

/// The upper-case hexadecimal digit with value `d`.
pub open spec fn upper_hex_digit(d: int) -> char {
    if d < 10 {
        ((48 + d) as u32) as char
    } else {
        ((55 + d) as u32) as char
    }
}

/// Two upper-case hexadecimal digits for each byte.
pub open spec fn upper_hex(bytes: Seq<u8>) -> Seq<char> {
    Seq::new(
        2 * bytes.len(),
        |i: int|
            if i % 2 == 0 {
                upper_hex_digit(bytes[i / 2] as int / 16)
            } else {
                upper_hex_digit(bytes[i / 2] as int % 16)
            },
    )
}

/// The value of a hexadecimal digit of either case.
pub open spec fn hex_value(c: char) -> Option<int> {
    if '0' <= c <= '9' {
        Some(c as int - '0' as int)
    } else if 'A' <= c <= 'F' {
        Some(c as int - 'A' as int + 10)
    } else if 'a' <= c <= 'f' {
        Some(c as int - 'a' as int + 10)
    } else {
        None
    }
}

/// Text that is made of hexadecimal digits, two for each byte, at least one byte.
pub open spec fn hex_pairs(s: Seq<char>) -> bool {
    &&& s.len() > 0
    &&& s.len() % 2 == 0
    &&& forall|i: int| 0 <= i < s.len() ==> hex_value(#[trigger] s[i]) is Some
}

/// The bytes that pairs of hexadecimal digits denote.
pub open spec fn hex_bytes(s: Seq<char>) -> Seq<u8> {
    Seq::new(
        s.len() / 2,
        |i: int| (hex_value(s[2 * i])->0 * 16 + hex_value(s[2 * i + 1])->0) as u8,
    )
}

/// What precedes the hexadecimal digits of an encoded component.
pub open spec fn escape_prefix() -> Seq<char> {
    "#bk#"@
}

/// The component under which `name` is stored on `host`.
pub open spec fn encoded(host: Host, name: Seq<char>) -> Seq<char> {
    if host == Host::Posix || legal_on_windows(name) {
        name
    } else {
        escape_prefix() + upper_hex(encode_utf8(name))
    }
}

/// The Linux name of a component found on `host`.
pub open spec fn decoded(host: Host, name: Seq<char>) -> Seq<char> {
    match text::after_prefix(name, escape_prefix()) {
        Some(hex) if host == Host::Windows && hex_pairs(hex) && valid_utf8(hex_bytes(hex)) => {
            decode_utf8(hex_bytes(hex))
        },
        _ => name,
    }
}

/// `String::from_utf8`: the string whose UTF-8 encoding is `bytes`, when they
/// are valid UTF-8.
#[verifier::external_body]
pub(crate) fn from_utf8(bytes: Vec<u8>) -> (r: Option<String>)
    ensures
        match r {
            Some(s) => valid_utf8(bytes@) && encode_utf8(s@) == bytes@,
            None => !valid_utf8(bytes@),
        },
{
    String::from_utf8(bytes).ok()
}

/// Whether NTFS rejects `c` in a component.
fn is_rejected_char(c: char) -> (r: bool)
    ensures
        r == rejected_char(c),
{
    c == '<' || c == '>' || c == ':' || c == '"' || c == '/' || c == '\\' || c == '|' || c == '?'
        || c == '*' || (c as u32) <= 0x1f
}

/// Whether `stem` is a reserved device name.
fn is_reserved_device(stem: &str) -> (r: bool)
    ensures
        r == reserved_device(stem@),
{
    same_text(stem, "CON") || same_text(stem, "PRN") || same_text(stem, "AUX") || same_text(
        stem,
        "NUL",
    ) || same_text(stem, "COM1") || same_text(stem, "COM2") || same_text(stem, "COM3")
        || same_text(stem, "COM4") || same_text(stem, "COM5") || same_text(stem, "COM6")
        || same_text(stem, "COM7") || same_text(stem, "COM8") || same_text(stem, "COM9")
        || same_text(stem, "LPT1") || same_text(stem, "LPT2") || same_text(stem, "LPT3")
        || same_text(stem, "LPT4") || same_text(stem, "LPT5") || same_text(stem, "LPT6")
        || same_text(stem, "LPT7") || same_text(stem, "LPT8") || same_text(stem, "LPT9")
}

/// True when this single path component is legal on Windows NTFS.
pub fn component_ok_on_windows(name: &str) -> (r: bool)
    ensures
        r == legal_on_windows(name@),
{
    if name.is_empty() || same_text(name, ".") || same_text(name, "..") {
        assert(name@.len() == 0 ==> name@ =~= Seq::<char>::empty());
        return true;
    }
    if ends_with_char(name, ' ') || ends_with_char(name, '.') {
        return false;
    }
    let v = chars_of(name);
    for i in 0..v.len()
        invariant
            v@ == name@,
            v@.len() > 0,
            name@ != "."@,
            name@ != ".."@,
            forall|k: int| 0 <= k < i ==> !rejected_char(#[trigger] v@[k]),
    {
        if is_rejected_char(v[i]) {
            return false;
        }
    }
    let stems = split(name, '.');
    !is_reserved_device(to_upper(stems[0].as_str()).as_str())
}

/// The upper-case hexadecimal digit with value `d`.
fn upper_hex_char(d: u8) -> (r: char)
    requires
        d < 16,
    ensures
        r == upper_hex_digit(d as int),
{
    if d < 10 {
        (48 + d) as char
    } else {
        (55 + d) as char
    }
}

/// Encode one path component for storage on the host.
pub fn encode_component(host: Host, name: &str) -> (r: String)
    ensures
        r@ == encoded(host, name@),
{
    if host == Host::Posix || component_ok_on_windows(name) {
        return name.to_owned();
    }
    let mut out = "#bk#".to_owned();
    let bytes = name.as_bytes();
    let ghost b = encode_utf8(name@);
    for i in 0..bytes.len()
        invariant
            bytes@ == b,
            out@ == escape_prefix() + upper_hex(b.take(i as int)),
    {
        let byte: u8 = bytes[i];
        out.push(upper_hex_char(byte / 16));
        out.push(upper_hex_char(byte % 16));
        assert(out@ =~= escape_prefix() + upper_hex(b.take(i + 1)));
    }
    assert(b.take(b.len() as int) =~= b);
    out
}

/// The value of a hexadecimal digit.
fn hex_digit_value(c: char) -> (r: Option<u8>)
    ensures
        match r {
            Some(d) => hex_value(c) == Some(d as int) && d < 16,
            None => hex_value(c) is None,
        },
{
    if '0' <= c && c <= '9' {
        Some(c as u8 - 48)
    } else if 'A' <= c && c <= 'F' {
        Some(c as u8 - 55)
    } else if 'a' <= c && c <= 'f' {
        Some(c as u8 - 87)
    } else {
        None
    }
}

/// The bytes that `hex` denotes, when it is made of pairs of hexadecimal digits.
fn parse_hex(hex: &str) -> (r: Option<Vec<u8>>)
    ensures
        match r {
            Some(b) => hex_pairs(hex@) && b@ == hex_bytes(hex@),
            None => !hex_pairs(hex@),
        },
{
    let v = chars_of(hex);
    if v.len() == 0 || v.len() % 2 != 0 {
        return None;
    }
    let mut bytes: Vec<u8> = Vec::new();
    let n: usize = v.len() / 2;
    for i in 0..n
        invariant
            v@ == hex@,
            v@.len() == 2 * n,
            v.len() == 2 * n,
            bytes@ == hex_bytes(v@.take(2 * i as int)),
            forall|k: int| 0 <= k < 2 * i ==> hex_value(#[trigger] v@[k]) is Some,
    {
        let high: Option<u8> = hex_digit_value(v[2 * i]);
        let low: Option<u8> = hex_digit_value(v[2 * i + 1]);
        match (high, low) {
            (Some(h), Some(l)) => {
                bytes.push(h * 16 + l);
                assert(bytes@ =~= hex_bytes(v@.take(2 * (i + 1))));
            },
            _ => {
                assert(hex_value(v@[2 * i as int]) is None || hex_value(v@[2 * i + 1]) is None);
                return None;
            },
        }
    }
    assert(v@.take(2 * n as int) =~= v@);
    Some(bytes)
}

/// Decode a host path component back to the Linux name.
pub fn decode_component(host: Host, name: &str) -> (r: String)
    ensures
        r@ == decoded(host, name@),
{
    if host == Host::Posix {
        return name.to_owned();
    }
    match strip_prefix(name, "#bk#") {
        None => name.to_owned(),
        Some(hex) => match parse_hex(hex.as_str()) {
            None => name.to_owned(),
            Some(bytes) => match from_utf8(bytes) {
                None => name.to_owned(),
                Some(s) => {
                    proof {
                        encode_utf8_decode_utf8(s@);
                    }
                    s
                },
            },
        },
    }
}

/// The components reached from `base` along `pieces`: empty pieces and `.` stay
/// where they are, `..` goes up as far as there is something above, and any
/// other piece is stored under its encoded name.
pub open spec fn reached(
    host: Host,
    base: Seq<Seq<char>>,
    pieces: Seq<Seq<char>>,
) -> Seq<Seq<char>>
    decreases pieces.len(),
{
    if pieces.len() == 0 {
        base
    } else {
        let before = reached(host, base, pieces.drop_last());
        let last = pieces.last();
        if last.len() == 0 || last == "."@ {
            before
        } else if last == ".."@ {
            if before.len() > 0 {
                before.drop_last()
            } else {
                before
            }
        } else {
            before.push(encoded(host, last))
        }
    }
}

/// `path` extended by a Linux-relative path.
pub open spec fn pushed(host: Host, path: PathView, guest_rel: Seq<char>) -> PathView {
    PathView {
        anchor: path.anchor,
        parts: reached(host, path.parts, text::pieces(guest_rel, '/', '\\')),
    }
}

/// Append a Linux-relative path onto an existing host path.
pub fn push_guest_rel(host: Host, path: &mut HostPath, guest_rel: &str)
    ensures
        final(path)@ == pushed(host, old(path)@, guest_rel@),
{
    let parts = split_any(guest_rel, '/', '\\');
    let ghost base = path@.parts;
    let ghost all = parts.deep_view();
    assert(all.take(0) =~= Seq::<Seq<char>>::empty());
    for i in 0..parts.len()
        invariant
            all == parts.deep_view(),
            path@.anchor == old(path)@.anchor,
            path@.parts == reached(host, base, all.take(i as int)),
    {
        assert(all.take(i + 1).drop_last() =~= all.take(i as int));
        let part = parts[i].as_str();
        if part.is_empty() || same_text(part, ".") {
        } else if same_text(part, "..") {
            let _ = path.pop();
        } else {
            path.push(encode_component(host, part).as_str());
        }
    }
    assert(all.take(all.len() as int) =~= all);
}

/// Join `root` with a Linux-relative path, encoding each component on Windows.
pub fn join_root(host: Host, root: &HostPath, guest_rel: &str) -> (r: HostPath)
    ensures
        r@ == pushed(host, root@, guest_rel@),
{
    let mut out = root.copy();
    push_guest_rel(host, &mut out, guest_rel);
    out
}

/// The components reached from `base` along `pieces` where nothing leads above `base`,
/// as nothing leads above the root of a filesystem.
pub open spec fn held(host: Host, base: Seq<Seq<char>>, pieces: Seq<Seq<char>>) -> Seq<Seq<char>>
    decreases pieces.len(),
{
    if pieces.len() == 0 {
        base
    } else {
        let before = held(host, base, pieces.drop_last());
        let last = pieces.last();
        if last.len() == 0 || last == "."@ {
            before
        } else if last == ".."@ {
            if before.len() > base.len() {
                before.drop_last()
            } else {
                before
            }
        } else {
            before.push(encoded(host, last))
        }
    }
}

/// The place that an absolute Linux path names in the filesystem with its root at
/// `root`.
pub open spec fn inside(host: Host, root: PathView, guest: Seq<char>) -> PathView {
    PathView { anchor: root.anchor, parts: held(host, root.parts, text::pieces(guest, '/', '\\')) }
}

/// The place that an absolute Linux path names in the filesystem with its root at
/// `root`.
pub fn join_inside(host: Host, root: &HostPath, guest: &str) -> (r: HostPath)
    ensures
        r@ == inside(host, root@, guest@),
{
    let parts = split_any(guest, '/', '\\');
    let mut out = root.copy();
    let ghost base = root@.parts;
    let ghost all = parts.deep_view();
    assert(all.take(0) =~= Seq::<Seq<char>>::empty());
    for i in 0..parts.len()
        invariant
            all == parts.deep_view(),
            base == root@.parts,
            out@.anchor == root@.anchor,
            out@.parts == held(host, base, all.take(i as int)),
    {
        assert(all.take(i + 1).drop_last() =~= all.take(i as int));
        let part = parts[i].as_str();
        if part.is_empty() || same_text(part, ".") {
        } else if same_text(part, "..") {
            if out.parts.len() > root.parts.len() {
                let _ = out.pop();
            }
        } else {
            out.push(encode_component(host, part).as_str());
        }
    }
    assert(all.take(all.len() as int) =~= all);
    out
}

/// What is reached without leading above `base` lies at or below it.
proof fn lemma_held_below(host: Host, base: Seq<Seq<char>>, pieces: Seq<Seq<char>>)
    ensures
        held(host, base, pieces).len() >= base.len(),
        held(host, base, pieces).take(base.len() as int) == base,
    decreases pieces.len(),
{
    let n = base.len() as int;
    if pieces.len() == 0 {
        assert(base.take(n) =~= base);
    } else {
        let before = held(host, base, pieces.drop_last());
        lemma_held_below(host, base, pieces.drop_last());
        assert(held(host, base, pieces).take(n) =~= before.take(n));
    }
}

/// An absolute Linux path names a place in its filesystem, however it leads upwards.
pub proof fn absolute_paths_stay_inside(host: Host, root: PathView, guest: Seq<char>)
    ensures
        inside(host, root, guest).within(root),
{
    lemma_held_below(host, root.parts, text::pieces(guest, '/', '\\'));
}

/// The Linux names of the components of a relative host path.
pub open spec fn guest_parts(host: Host, parts: Seq<Seq<char>>) -> Seq<Seq<char>>
    decreases parts.len(),
{
    if parts.len() == 0 {
        Seq::empty()
    } else {
        let before = guest_parts(host, parts.drop_last());
        if parts.last() == "."@ {
            before
        } else if parts.last() == ".."@ {
            before.push(parts.last())
        } else {
            before.push(decoded(host, parts.last()))
        }
    }
}

/// Convert a path relative to some root back into a Linux-relative path string.
pub fn host_rel_to_guest(host: Host, rel: &HostPath) -> (r: String)
    ensures
        r@ == text::joined(guest_parts(host, rel@.parts), "/"@),
{
    let mut parts: Vec<String> = Vec::new();
    let ghost all = rel@.parts;
    assert(parts.deep_view() =~= guest_parts(host, all.take(0)));
    for i in 0..rel.parts.len()
        invariant
            all == rel.parts.deep_view(),
            parts.deep_view() == guest_parts(host, all.take(i as int)),
    {
        assert(all.take(i + 1).drop_last() =~= all.take(i as int));
        let ghost before = parts.deep_view();
        let part = rel.parts[i].as_str();
        if same_text(part, ".") {
        } else if same_text(part, "..") {
            parts.push(part.to_owned());
            assert(parts.deep_view() =~= before.push(part@));
        } else {
            parts.push(decode_component(host, part));
            assert(parts.deep_view() =~= before.push(decoded(host, part@)));
        }
    }
    assert(all.take(all.len() as int) =~= all);
    join(&parts, "/")
}

/// The hexadecimal digits of a byte denote that byte again.
proof fn lemma_hex_digits(b: u8)
    ensures
        hex_value(upper_hex_digit(b as int / 16)) == Some(b as int / 16),
        hex_value(upper_hex_digit(b as int % 16)) == Some(b as int % 16),
        !rejected_char(upper_hex_digit(b as int / 16)),
        !rejected_char(upper_hex_digit(b as int % 16)),
        upper_hex_digit(b as int % 16) != ' ',
        upper_hex_digit(b as int % 16) != '.',
{
}

/// Reading the hexadecimal digits of some bytes gives the bytes back.
proof fn lemma_hex_round_trip(bytes: Seq<u8>)
    ensures
        hex_bytes(upper_hex(bytes)) == bytes,
        bytes.len() > 0 ==> hex_pairs(upper_hex(bytes)),
{
    let h = upper_hex(bytes);
    assert forall|i: int| 0 <= i < h.len() implies hex_value(#[trigger] h[i]) is Some by {
        lemma_hex_digits(bytes[i / 2]);
    }
    assert forall|i: int| 0 <= i < bytes.len() implies #[trigger] hex_bytes(h)[i] == bytes[i] by {
        lemma_hex_digits(bytes[i]);
        assert(h[2 * i] == upper_hex_digit(bytes[i] as int / 16));
        assert(h[2 * i + 1] == upper_hex_digit(bytes[i] as int % 16));
    }
    assert(hex_bytes(h) =~= bytes);
}

/// A name with a character has a UTF-8 encoding with a byte.
proof fn lemma_encoding_not_empty(name: Seq<char>)
    requires
        name.len() > 0,
    ensures
        encode_utf8(name).len() > 0,
{
    encode_utf8_decode_utf8(name);
    if encode_utf8(name).len() == 0 {
        assert(decode_utf8(encode_utf8(name)).len() == 0);
    }
}

/// The original name can be recovered: decoding the stored form of a component
/// gives the component. On Windows, a component that is stored as it stands and
/// itself looks like an encoded one is the exception.
pub proof fn component_round_trip(host: Host, name: Seq<char>)
    requires
        host == Host::Posix || !legal_on_windows(name) || text::after_prefix(
            name,
            escape_prefix(),
        ) is None,
    ensures
        decoded(host, encoded(host, name)) == name,
{
    if host == Host::Windows && !legal_on_windows(name) {
        let bytes = encode_utf8(name);
        let stored = encoded(host, name);
        let hex = upper_hex(bytes);
        assert(stored.take(escape_prefix().len() as int) =~= escape_prefix());
        assert(stored.skip(escape_prefix().len() as int) =~= hex);
        assert(name.len() > 0) by {
            if name.len() == 0 {
                assert(name =~= Seq::<char>::empty());
            }
        }
        lemma_encoding_not_empty(name);
        lemma_hex_round_trip(bytes);
        encode_utf8_decode_utf8(name);
        encode_utf8_valid_utf8(name);
    }
}

/// What is stored on Windows is always a legal component there.
pub proof fn stored_component_is_legal(name: Seq<char>)
    ensures
        legal_on_windows(encoded(Host::Windows, name)),
{
    if !legal_on_windows(name) {
        let bytes = encode_utf8(name);
        let stored = encoded(Host::Windows, name);
        let hex = upper_hex(bytes);
        reveal_strlit("#bk#");
        assert(name.len() > 0) by {
            if name.len() == 0 {
                assert(name =~= Seq::<char>::empty());
            }
        }
        lemma_encoding_not_empty(name);
        assert(hex.last() == upper_hex_digit(bytes.last() as int % 16)) by {
            assert((hex.len() - 1) / 2 == bytes.len() - 1);
            assert((hex.len() - 1) % 2 == 1);
        }
        lemma_hex_digits(bytes.last());
        assert(stored.last() == hex.last());
        assert forall|i: int| 0 <= i < stored.len() implies !rejected_char(#[trigger] stored[i]) by {
            if i >= 4 {
                assert(stored[i] == hex[i - 4]);
                lemma_hex_digits(bytes[(i - 4) / 2]);
            }
        }
        lemma_first_piece(stored, '.');
        let stem = text::split_at_char(stored, '.')[0];
        assert(stem.len() > 0 && stem[0] == '#');
        assert(uppered_head(stem));
        reveal_strlit("CON");
        reveal_strlit("PRN");
        reveal_strlit("AUX");
        reveal_strlit("NUL");
        reveal_strlit("COM1");
        reveal_strlit("COM2");
        reveal_strlit("COM3");
        reveal_strlit("COM4");
        reveal_strlit("COM5");
        reveal_strlit("COM6");
        reveal_strlit("COM7");
        reveal_strlit("COM8");
        reveal_strlit("COM9");
        reveal_strlit("LPT1");
        reveal_strlit("LPT2");
        reveal_strlit("LPT3");
        reveal_strlit("LPT4");
        reveal_strlit("LPT5");
        reveal_strlit("LPT6");
        reveal_strlit("LPT7");
        reveal_strlit("LPT8");
        reveal_strlit("LPT9");
        assert(!reserved_device(text::uppered(stem)));
    }
}

/// A text that begins with `#` keeps that character in upper case.
spec fn uppered_head(s: Seq<char>) -> bool {
    text::uppered(s).len() > 0 && text::uppered(s)[0] == '#'
}

/// The first piece of a text begins as the text does, unless a separator stands
/// at the front.
proof fn lemma_first_piece(s: Seq<char>, c: char)
    requires
        s.len() > 0,
        s[0] != c,
    ensures
        text::split_at_char(s, c).len() > 0,
        text::split_at_char(s, c)[0].len() > 0,
        text::split_at_char(s, c)[0][0] == s[0],
    decreases s.len(),
{
    let before = text::pieces(s.drop_last(), c, c);
    if s.len() == 1 {
        assert(s.drop_last() =~= Seq::<char>::empty());
        assert(before =~= seq![Seq::<char>::empty()]);
    } else {
        lemma_first_piece(s.drop_last(), c);
    }
}

} // verus!
