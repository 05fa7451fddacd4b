//! Paths that serialize as STFU-8 text, which can encode any path bytes.
use vstd::prelude::*;
use crate::error::Error;
use crate::ops::{PathInfo, PathMut, PathOps};
use crate::path::{parse, render, PathBuf, SpecComponent};
use vstd::string::StringSliceAdditionalSpecFns;
use vstd::utf8::encode_utf8;

verus! {

#[verifier::external_type_specification]
#[verifier::external_body]
pub struct ExDecodeError(stfu8::DecodeError);

/// The byte `\`, which starts every STFU-8 escape.
pub const BACKSLASH: u8 = 0x5c;

/// `b` is an ASCII hexadecimal digit.
pub open spec fn is_hex_digit(b: u8) -> bool {
    (0x30 <= b <= 0x39) || (0x41 <= b <= 0x46) || (0x61 <= b <= 0x66)
}

/// The value of an ASCII hexadecimal digit.
pub open spec fn hex_digit_value(b: u8) -> int {
    if b <= 0x39 {
        b - 0x30
    } else if b <= 0x46 {
        b - 0x41 + 10
    } else {
        b - 0x61 + 10
    }
}

/// The value of hexadecimal digits, the most significant first.
pub open spec fn hex_value(d: Seq<u8>) -> int
    decreases d.len(),
{
    if d.len() == 0 {
        0
    } else {
        hex_value(d.drop_last()) * 16 + hex_digit_value(d.last())
    }
}

/// `d` without one leading `+`, if it has one.
pub open spec fn without_plus(d: Seq<u8>) -> Seq<u8> {
    if d.len() > 0 && d[0] == 0x2b {
        d.drop_first()
    } else {
        d
    }
}

/// Every byte of `d` is a hexadecimal digit.
pub open spec fn all_hex(d: Seq<u8>) -> bool {
    forall|i: int| 0 <= i < d.len() ==> is_hex_digit(#[trigger] d[i])
}

/// The digits that `u32::from_str_radix(d, 16)` reads: an optional `+` followed by at least
/// one hexadecimal digit and nothing else; `None` when it rejects `d`.
pub open spec fn radix16_digits(d: Seq<u8>) -> Option<Seq<u8>> {
    if without_plus(d).len() > 0 && all_hex(without_plus(d)) {
        Some(without_plus(d))
    } else {
        None
    }
}

/// Byte `k` of the UTF-8 text `b` starts a character or is its end, so that a `str`
/// may be sliced there.
pub open spec fn at_char_boundary(b: Seq<u8>, k: int) -> bool {
    k == b.len() || !(0x80 <= b[k] <= 0xbf)
}

/// A value that `char::from_u32` accepts.
pub open spec fn is_scalar_value(v: int) -> bool {
    0 <= v <= 0x10ffff && !(0xd800 <= v <= 0xdfff)
}

/// `stfu8::decode_u8` returns, with bytes or with an error, on the text whose UTF-8 bytes are
/// `b`: every `\x` or `\u` escape that the scan reaches with its 2 or 6 digit bytes present
/// ends at a character boundary (the crate slices the text there). The scan reads the text
/// from the start and stops at the first error.
pub open spec fn stfu8_decodes_without_panic(b: Seq<u8>) -> bool
    decreases b.len(),
{
    if b.len() == 0 {
        true
    } else if b[0] != BACKSLASH {
        stfu8_decodes_without_panic(b.drop_first())
    } else if b.len() < 2 {
        true
    } else if b[1] == 0x74 || b[1] == 0x6e || b[1] == 0x72 || b[1] == BACKSLASH {
        stfu8_decodes_without_panic(b.skip(2))
    } else if b[1] == 0x78 {
        if b.len() < 4 {
            true
        } else if !at_char_boundary(b, 4) {
            false
        } else if radix16_digits(b.subrange(2, 4)) is Some {
            stfu8_decodes_without_panic(b.skip(4))
        } else {
            true
        }
    } else if b[1] == 0x75 {
        if b.len() < 8 {
            true
        } else if !at_char_boundary(b, 8) {
            false
        } else {
            match radix16_digits(b.subrange(2, 8)) {
                Some(d) => if is_scalar_value(hex_value(d)) {
                    stfu8_decodes_without_panic(b.skip(8))
                } else {
                    true
                },
                None => true,
            }
        }
    } else {
        true
    }
}

/// `16` to the power `n`.
pub open spec fn pow16(n: nat) -> nat
    decreases n,
{
    if n == 0 {
        1
    } else {
        16 * pow16((n - 1) as nat)
    }
}

proof fn lemma_hex_value_bound(d: Seq<u8>)
    requires
        forall|i: int| 0 <= i < d.len() ==> is_hex_digit(#[trigger] d[i]),
    ensures
        0 <= hex_value(d) < pow16(d.len()),
    decreases d.len(),
{
    if d.len() > 0 {
        let init = d.drop_last();
        assert forall|i: int| 0 <= i < init.len() implies is_hex_digit(#[trigger] init[i]) by {
            assert(init[i] == d[i]);
        }
        lemma_hex_value_bound(init);
        assert(is_hex_digit(d[d.len() - 1]));
    }
}

/// What `u32::from_str_radix` makes of the bytes `b[start..end]` in base 16.
fn radix16_value(b: &[u8], start: usize, end: usize) -> (r: Option<u32>)
    requires
        start <= end <= b@.len(),
        end - start <= 6,
    ensures
        match radix16_digits(b@.subrange(start as int, end as int)) {
            Some(d) => r == Some(hex_value(d) as u32) && 0 <= hex_value(d) < pow16(6),
            None => r is None,
        },
{
    let ghost whole = b@.subrange(start as int, end as int);
    let mut j = start;
    if end > start && b[start] == 0x2b {
        j = start + 1;
    }
    let ghost digits = b@.subrange(j as int, end as int);
    assert(digits =~= without_plus(whole));
    if j == end {
        assert(digits.len() == 0);
        return None;
    }
    let mut v: u32 = 0;
    let mut k = j;
    assert(b@.subrange(j as int, j as int) =~= Seq::<u8>::empty());
    while k < end
        invariant
            start <= j <= k <= end <= b@.len(),
            end - j <= 6,
            digits == b@.subrange(j as int, end as int),
            digits == without_plus(b@.subrange(start as int, end as int)),
            forall|i: int| j <= i < k ==> is_hex_digit(#[trigger] b@[i]),
            v as int == hex_value(b@.subrange(j as int, k as int)),
            hex_value(b@.subrange(j as int, k as int)) < pow16((k - j) as nat),
        decreases end - k,
    {
        let c = b[k];
        let ghost pre = b@.subrange(j as int, k as int);
        let ghost pre1 = b@.subrange(j as int, k + 1);
        assert(pre1.drop_last() =~= pre);
        let dv: u32 = if 0x30 <= c && c <= 0x39 {
            (c - 0x30) as u32
        } else if 0x41 <= c && c <= 0x46 {
            (c - 0x41 + 10) as u32
        } else if 0x61 <= c && c <= 0x66 {
            (c - 0x61 + 10) as u32
        } else {
            assert(!is_hex_digit(digits[k - j]));
            return None;
        };
        proof {
            assert(pow16((k + 1 - j) as nat) == 16 * pow16((k - j) as nat));
            assert(pow16(6) == 0x1000000) by {
                reveal_with_fuel(pow16, 7);
            }
            assert(forall|i: int| j <= i < k + 1 ==> is_hex_digit(#[trigger] b@[i]));
            assert forall|i: int| 0 <= i < pre1.len() implies is_hex_digit(#[trigger] pre1[i]) by {
                assert(pre1[i] == b@[j + i]);
            }
            lemma_hex_value_bound(pre1);
            assert((k + 1 - j) <= 6);
            lemma_pow16_monotone((k + 1 - j) as nat, 6);
        }
        v = v * 16 + dv;
        k += 1;
    }
    proof {
        assert forall|i: int| 0 <= i < digits.len() implies is_hex_digit(#[trigger] digits[i]) by {
            assert(digits[i] == b@[j + i]);
        }
        lemma_pow16_monotone((end - j) as nat, 6);
    }
    Some(v)
}

proof fn lemma_pow16_monotone(m: nat, n: nat)
    requires
        m <= n,
    ensures
        pow16(m) <= pow16(n),
    decreases n,
{
    if m < n {
        lemma_pow16_monotone(m, (n - 1) as nat);
    }
}

/// Whether `stfu8::decode_u8` returns on the text `s` rather than panicking.
pub fn decodes_without_panic(s: &str) -> (ok: bool)
    ensures
        ok == stfu8_decodes_without_panic(s.spec_bytes()),
{
    let b = s.as_bytes();
    let n = b.len();
    let mut i: usize = 0;
    assert(b@.skip(0) =~= b@);
    while i < n
        invariant
            i <= n == b@.len(),
            b@ == s.spec_bytes(),
            stfu8_decodes_without_panic(b@) == stfu8_decodes_without_panic(b@.skip(i as int)),
        decreases n - i,
    {
        let ghost t = b@.skip(i as int);
        assert(t.len() == n - i);
        assert(t[0] == b@[i as int]);
        if b[i] != BACKSLASH {
            assert(t.drop_first() =~= b@.skip(i + 1));
            i += 1;
        } else if n - i < 2 {
            return true;
        } else {
            let c = b[i + 1];
            assert(t[1] == c);
            if c == 0x74 || c == 0x6e || c == 0x72 || c == BACKSLASH {
                assert(t.skip(2) =~= b@.skip(i + 2));
                i += 2;
            } else if c == 0x78 || c == 0x75 {
                let len: usize = if c == 0x78 { 4 } else { 8 };
                if n - i < len {
                    return true;
                }
                if i + len < n && 0x80 <= b[i + len] && b[i + len] <= 0xbf {
                    assert(t[len as int] == b@[i + len]);
                    return false;
                }
                assert(at_char_boundary(t, len as int)) by {
                    if i + len < n {
                        assert(t[len as int] == b@[i + len]);
                    }
                }
                assert(t.subrange(2, len as int) =~= b@.subrange(i + 2, i + len));
                let v = radix16_value(b, i + 2, i + len);
                match v {
                    None => {
                        return true;
                    },
                    Some(x) => {
                        proof {
                            reveal_with_fuel(pow16, 7);
                            let d = radix16_digits(t.subrange(2, len as int))->0;
                            assert(x as int == hex_value(d));
                        }
                        if c == 0x75 && !(x <= 0x10ffff && !(0xd800 <= x && x <= 0xdfff)) {
                            return true;
                        }
                    },
                }
                assert(t.skip(len as int) =~= b@.skip(i + len));
                i += len;
            } else {
                return true;
            }
        }
    }
    assert(b@.skip(n as int) =~= Seq::<u8>::empty());
    true
}

/// The text that `stfu8::encode_u8` makes of the bytes `bytes`.
pub uninterp spec fn stfu8_encoding(bytes: Seq<u8>) -> Seq<char>;

/// The bytes that `stfu8::decode_u8` gives back for the text `text`, or `None` when it
/// fails on that text.
pub uninterp spec fn stfu8_decoding(text: Seq<char>) -> Option<Seq<u8>>;

/// Calls `stfu8::encode_u8`. Claimed: the result is `stfu8_encoding` of the bytes, and
/// `stfu8::decode_u8` decodes it back to the same bytes without panicking (the crate documents
/// that `decode_u8` decodes the output of `encode_u8`; its escapes are `\\`, `\t`, `\n`,
/// `\r` and `\x` with two digits). What the encoding looks like is not stated.
#[verifier::external_body]
fn encode_u8(v: &[u8]) -> (s: String)
    ensures
        s@ == stfu8_encoding(v@),
        stfu8_decoding(s@) == Some(v@),
        stfu8_decodes_without_panic(encode_utf8(s@)),
{
    stfu8::encode_u8(v)
}

/// Calls `stfu8::decode_u8`, on a text where it does not panic. Claimed: it succeeds exactly
/// when `stfu8_decoding` of the text is some bytes, and then returns those bytes; which texts
/// decode is not stated.
#[verifier::external_body]
fn decode_u8(s: &str) -> (r: Result<Vec<u8>, stfu8::DecodeError>)
    requires
        stfu8_decodes_without_panic(s.spec_bytes()),
    ensures
        match stfu8_decoding(s@) {
            Some(b) => r matches Ok(v) && v@ == b,
            None => r is Err,
        },
{
    stfu8::decode_u8(s)
}

/// Paths that can be written as STFU-8 text.
pub trait ToStfu8: PathInfo {
    /// The path's bytes encoded as STFU-8.
    fn to_stfu8(&self) -> (s: String)
        ensures
            s@ == stfu8_encoding(render(self@)),
            stfu8_decoding(s@) == Some(render(self@)),
            stfu8_decodes_without_panic(encode_utf8(s@)),
    {
        let bytes = self.as_path().to_bytes();
        encode_u8(bytes.as_slice())
    }
}

/// Paths that can be read from STFU-8 text.
pub trait FromStfu8: View<V = Seq<SpecComponent>> + Sized {
    /// The value holding the path `p`.
    fn from_path_buf(p: PathBuf) -> (r: Self)
        ensures
            r@ == p@,
    ;

    /// The path whose bytes the STFU-8 text `s` encodes.
    fn from_stfu8(s: &str) -> (r: Result<Self, stfu8::DecodeError>)
        requires
            stfu8_decodes_without_panic(s.spec_bytes()),
        ensures
            match stfu8_decoding(s@) {
                Some(b) => r matches Ok(p) && p@ == parse(b),
                None => r is Err,
            },
    {
        match decode_u8(s) {
            Ok(raw) => Ok(Self::from_path_buf(PathBuf::from_bytes(raw.as_slice()))),
            Err(e) => Err(e),
        }
    }
}

/// Writing a well-formed path as STFU-8 and reading it back gives the same path.
pub proof fn lemma_stfu8_roundtrip(p: Seq<SpecComponent>, text: Seq<char>)
    requires
        crate::path::wf(p),
        stfu8_decoding(text) == Some(render(p)),
    ensures
        stfu8_decoding(text) matches Some(b) && parse(b) == p,
{
    crate::path::lemma_render_parse_roundtrip(p);
}

/// A path that serializes as STFU-8 text.
#[derive(Debug)]
pub struct PathSer(PathBuf);

impl View for PathSer {
    type V = Seq<SpecComponent>;

    closed spec fn view(&self) -> Seq<SpecComponent> {
        self.0@
    }
}

impl PathSer {
    /// A `PathSer` holding `path`.
    pub fn new(path: PathBuf) -> (r: PathSer)
        ensures
            r@ == path@,
    {
        PathSer(path)
    }

    /// The path as a `PathBuf`.
    pub fn as_path(&self) -> (p: &PathBuf)
        ensures
            p@ == self@,
    {
        &self.0
    }
}

impl PathInfo for PathSer {
    fn as_path(&self) -> (p: &PathBuf) {
        &self.0
    }
}

impl PathMut for PathSer {
    fn append(&mut self, path: &PathBuf) -> (r: Result<(), Error>) {
        self.0.append_path(path)
    }

    fn pop_up(&mut self) -> (r: Result<(), Error>) {
        self.0.pop_up_path()
    }

    fn truncate_to_root(&mut self) {
        self.0.truncate_path_to_root()
    }

    fn set_file_name(&mut self, file_name: &[u8]) {
        self.0.set_file_name_bytes(file_name)
    }

    fn set_extension(&mut self, extension: &[u8]) -> (b: bool) {
        self.0.set_extension_bytes(extension)
    }
}

impl PathOps for PathSer {
    type Output = PathSer;

    fn concat(&self, path: &PathBuf) -> (r: Result<PathSer, Error>) {
        match self.0.concat(path) {
            Ok(p) => Ok(PathSer(p)),
            Err(e) => Err(e),
        }
    }

    fn join(&self, path: &PathBuf) -> (r: PathSer) {
        PathSer::new(self.0.join(path))
    }

    fn with_file_name(&self, file_name: &[u8]) -> (r: PathSer) {
        PathSer(PathOps::with_file_name(&self.0, file_name))
    }

    fn with_extension(&self, extension: &[u8]) -> (r: PathSer) {
        PathSer(PathOps::with_extension(&self.0, extension))
    }
}

impl ToStfu8 for PathBuf {}

impl ToStfu8 for PathSer {}

impl ToStfu8 for crate::abs::PathAbs {}

impl ToStfu8 for crate::dir::PathDir {}

impl ToStfu8 for crate::file::PathFile {}

impl FromStfu8 for PathBuf {
    fn from_path_buf(p: PathBuf) -> (r: PathBuf) {
        p
    }
}

impl FromStfu8 for PathSer {
    fn from_path_buf(p: PathBuf) -> (r: PathSer) {
        PathSer(p)
    }
}

} // verus!
