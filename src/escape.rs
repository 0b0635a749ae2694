use vstd::prelude::*;
use vstd::utf8::is_scalar;
use crate::text::{char_from_u32, char_vec, push_char};

verus! {

/// An escape sequence in a literal that cannot be read: the position of its
/// backslash and the whole text.
#[derive(Debug)]
pub struct EscapeError {
    pub index: usize,
    pub input: String,
}

/// The value of a hexadecimal digit.
pub open spec fn hex_value(c: char) -> Option<nat> {
    let u = c as u32;
    if 0x30 <= u <= 0x39 {
        Some((u - 0x30) as nat)
    } else if 0x61 <= u <= 0x66 {
        Some((u - 0x57) as nat)
    } else if 0x41 <= u <= 0x46 {
        Some((u - 0x37) as nat)
    } else {
        None
    }
}

/// The number that a sequence of hexadecimal digits writes, most significant first.
pub open spec fn hex_number(d: Seq<char>) -> Option<nat>
    decreases d.len(),
{
    if d.len() == 0 {
        Some(0)
    } else {
        match (hex_number(d.drop_last()), hex_value(d.last())) {
            (Some(v), Some(x)) => Some(v * 16 + x),
            _ => None,
        }
    }
}

/// The character whose code the hexadecimal digits `d` write, if there is one.
pub open spec fn code_point(d: Seq<char>) -> Option<char> {
    match hex_number(d) {
        Some(v) => if v <= u32::MAX && is_scalar(v as u32) {
            Some((v as u32) as char)
        } else {
            None
        },
        None => None,
    }
}

/// The character that a backslash and `c` stand for, among the one-letter escapes.
pub open spec fn simple_escape(c: char) -> Option<char> {
    if c == 't' {
        Some('\t')
    } else if c == 'b' {
        Some('\x08')
    } else if c == 'n' {
        Some('\n')
    } else if c == 'r' {
        Some('\r')
    } else if c == 'f' {
        Some('\x0C')
    } else if c == '\\' {
        Some('\\')
    } else {
        None
    }
}

/// `c` in front of an unescaped rest that began `n` characters later.
pub open spec fn prepend(c: char, r: Result<Seq<char>, int>, n: int) -> Result<Seq<char>, int> {
    match r {
        Ok(t) => Ok(seq![c] + t),
        Err(e) => Err(e + n),
    }
}

/// The text that `s` stands for once its escapes are read, or the position of the
/// first escape that cannot be read.
pub open spec fn unescaped(s: Seq<char>) -> Result<Seq<char>, int>
    decreases s.len(),
{
    if s.len() == 0 {
        Ok(seq![])
    } else if s[0] != '\\' {
        prepend(s[0], unescaped(s.skip(1)), 1)
    } else if s.len() == 1 {
        Err(0)
    } else if simple_escape(s[1]) is Some {
        prepend(simple_escape(s[1])->0, unescaped(s.skip(2)), 2)
    } else if s[1] == 'u' && s.len() >= 6 && code_point(s.subrange(2, 6)) is Some {
        prepend(code_point(s.subrange(2, 6))->0, unescaped(s.skip(6)), 6)
    } else if s[1] == 'U' && s.len() >= 10 && code_point(s.subrange(2, 10)) is Some {
        prepend(code_point(s.subrange(2, 10))->0, unescaped(s.skip(10)), 10)
    } else {
        Err(0)
    }
}

fn hex_value_of(c: char) -> (r: Option<u64>)
    ensures
        match r {
            Some(x) => hex_value(c) == Some(x as nat) && x < 16,
            None => hex_value(c) is None,
        },
{
    let u = c as u32;
    if 0x30 <= u && u <= 0x39 {
        Some((u - 0x30) as u64)
    } else if 0x61 <= u && u <= 0x66 {
        Some((u - 0x57) as u64)
    } else if 0x41 <= u && u <= 0x46 {
        Some((u - 0x37) as u64)
    } else {
        None
    }
}

fn simple_escape_of(c: char) -> (r: Option<char>)
    ensures
        r == simple_escape(c),
{
    if c == 't' {
        Some('\t')
    } else if c == 'b' {
        Some('\x08')
    } else if c == 'n' {
        Some('\n')
    } else if c == 'r' {
        Some('\r')
    } else if c == 'f' {
        Some('\x0C')
    } else if c == '\\' {
        Some('\\')
    } else {
        None
    }
}

/// Sixteen to the power `k`.
pub open spec fn pow16(k: nat) -> nat
    decreases k,
{
    if k == 0 {
        1
    } else {
        16 * pow16((k - 1) as nat)
    }
}

/// Reads the `count` hexadecimal digits at `start` as a character code.
pub fn parse_unicode(chars: &Vec<char>, start: usize, count: usize) -> (r: Option<char>)
    requires
        count <= 8,
    ensures
        r == (if start + count <= chars.len() {
            code_point(chars@.subrange(start as int, start + count))
        } else {
            None
        }),
{
    if start > chars.len() || count > chars.len() - start {
        return None;
    }
    let ghost d = chars@.subrange(start as int, start + count);
    assert(pow16(8) == 0x1_0000_0000) by {
        reveal_with_fuel(pow16, 9);
    }
    let mut v: u64 = 0;
    let mut k: usize = 0;
    while k < count
        invariant
            k <= count <= 8,
            start + count <= chars.len(),
            d == chars@.subrange(start as int, start + count),
            hex_number(d.take(k as int)) == Some(v as nat),
            v < pow16(k as nat),
            pow16(8) == 0x1_0000_0000,
        decreases count - k,
    {
        match hex_value_of(chars[start + k]) {
            Some(x) => {
                assert(d.take(k + 1).drop_last() =~= d.take(k as int));
                proof {
                    lemma_pow16_monotonic((k + 1) as nat, 8);
                }
                v = v * 16 + x;
                k = k + 1;
            },
            None => {
                proof {
                    lemma_hex_number_fails(d, k as int);
                }
                return None;
            },
        }
    }
    assert(d.take(count as int) =~= d);
    if v > u32::MAX as u64 {
        return None;
    }
    char_from_u32(v as u32)
}

proof fn lemma_pow16_monotonic(a: nat, b: nat)
    requires
        a <= b,
    ensures
        pow16(a) <= pow16(b),
    decreases b,
{
    if a < b {
        lemma_pow16_monotonic(a, (b - 1) as nat);
    }
}

/// A digit that is not hexadecimal spoils every longer prefix.
proof fn lemma_hex_number_fails(d: Seq<char>, k: int)
    requires
        0 <= k < d.len(),
        hex_value(d[k]) is None,
    ensures
        hex_number(d) is None,
    decreases d.len(),
{
    if k < d.len() - 1 {
        lemma_hex_number_fails(d.drop_last(), k);
    }
}

/// Reads the escapes of a literal's text: `\t`, `\b`, `\n`, `\r`, `\f`, `\\`,
/// `\u` with four hexadecimal digits and `\U` with eight. Any other escape fails.
pub fn unescape(s: &str) -> (r: Result<String, EscapeError>)
    ensures
        match r {
            Ok(t) => unescaped(s@) == Ok::<Seq<char>, int>(t@),
            Err(e) => unescaped(s@) == Err::<Seq<char>, int>(e.index as int) && e.input@ == s@,
        },
{
    let chars = char_vec(s);
    let mut res = String::new();
    let mut i: usize = 0;
    proof {
        assert(chars@.skip(0) =~= chars@);
        if let Ok(t) = unescaped(s@) {
            assert(res@ + t =~= t);
        }
    }
    while i < chars.len()
        invariant
            chars@ == s@,
            i <= chars.len(),
            match unescaped(chars@.skip(i as int)) {
                Ok(t) => unescaped(s@) == Ok::<Seq<char>, int>(res@ + t),
                Err(e) => unescaped(s@) == Err::<Seq<char>, int>(e + i),
            },
        decreases chars.len() - i,
    {
        let ghost rest = chars@.skip(i as int);
        let c = chars[i];
        if c != '\\' {
            assert(rest.skip(1) =~= chars@.skip(i + 1));
            assert(res@.push(c) + unescaped(rest.skip(1))->Ok_0 =~= res@ + (seq![c]
                + unescaped(rest.skip(1))->Ok_0));
            push_char(&mut res, c);
            i = i + 1;
        } else if i + 1 >= chars.len() {
            return Err(EscapeError { index: i, input: s.to_owned() });
        } else {
            let c2 = chars[i + 1];
            let decoded = match simple_escape_of(c2) {
                Some(e) => Some((e, 2)),
                None => if c2 == 'u' {
                    proof {
                        if i + 6 <= chars.len() {
                            assert(rest.subrange(2, 6) =~= chars@.subrange(i + 2, i + 6));
                        }
                    }
                    match parse_unicode(&chars, i + 2, 4) {
                        Some(e) => Some((e, 6)),
                        None => None,
                    }
                } else if c2 == 'U' {
                    proof {
                        if i + 10 <= chars.len() {
                            assert(rest.subrange(2, 10) =~= chars@.subrange(i + 2, i + 10));
                        }
                    }
                    match parse_unicode(&chars, i + 2, 8) {
                        Some(e) => Some((e, 10)),
                        None => None,
                    }
                } else {
                    None
                },
            };
            match decoded {
                Some((e, n)) => {
                    assert(rest.skip(n as int) =~= chars@.skip(i + n));
                    assert(res@.push(e) + unescaped(rest.skip(n as int))->Ok_0 =~= res@ + (seq![e]
                        + unescaped(rest.skip(n as int))->Ok_0));
                    push_char(&mut res, e);
                    i = i + n;
                },
                None => {
                    return Err(EscapeError { index: i, input: s.to_owned() });
                },
            }
        }
    }
    assert(chars@.skip(i as int) =~= Seq::<char>::empty());
    assert(res@ + Seq::<char>::empty() =~= res@);
    Ok(res)
}

/// How `c` is written in a literal: the one-letter escape for the characters that
/// have one, `c` itself for every other character.
pub open spec fn escape_char(c: char) -> Seq<char> {
    if c == '\\' {
        seq!['\\', '\\']
    } else if c == '\t' {
        seq!['\\', 't']
    } else if c == '\x08' {
        seq!['\\', 'b']
    } else if c == '\n' {
        seq!['\\', 'n']
    } else if c == '\r' {
        seq!['\\', 'r']
    } else if c == '\x0C' {
        seq!['\\', 'f']
    } else {
        seq![c]
    }
}

/// The text `t` written as a literal, with its characters escaped one by one.
pub open spec fn escape(t: Seq<char>) -> Seq<char>
    decreases t.len(),
{
    if t.len() == 0 {
        seq![]
    } else {
        escape_char(t[0]) + escape(t.skip(1))
    }
}

/// Unescaping escaped text gives the text back, and then goes on with what follows
/// it; an escape there that cannot be read fails at its own position.
pub proof fn lemma_unescape_after_escape(t: Seq<char>, rest: Seq<char>)
    ensures
        unescaped(escape(t) + rest) == match unescaped(rest) {
            Ok(u) => Ok(t + u),
            Err(e) => Err::<Seq<char>, int>(e + escape(t).len()),
        },
    decreases t.len(),
{
    if t.len() == 0 {
        assert(escape(t) + rest =~= rest);
        if let Ok(u) = unescaped(rest) {
            assert(t + u =~= u);
        }
    } else {
        let c = t[0];
        let x = escape_char(c);
        let s = escape(t) + rest;
        lemma_unescape_after_escape(t.skip(1), rest);
        assert(s =~= x + (escape(t.skip(1)) + rest));
        assert(s.skip(x.len() as int) =~= escape(t.skip(1)) + rest);
        if let Ok(u) = unescaped(rest) {
            assert(seq![c] + (t.skip(1) + u) =~= t + u);
        }
    }
}

/// Unescaping undoes escaping.
pub proof fn lemma_unescape_escape(t: Seq<char>)
    ensures
        unescaped(escape(t)) == Ok::<Seq<char>, int>(t),
{
    lemma_unescape_after_escape(t, seq![]);
    assert(escape(t) + Seq::<char>::empty() =~= escape(t));
    assert(t + Seq::<char>::empty() =~= t);
}

/// A backslash at the end of the text, or followed by a character that starts no
/// escape, fails at that backslash, whatever escaped text comes before it.
pub proof fn lemma_invalid_escape_fails(t: Seq<char>, bad: Seq<char>)
    requires
        bad == seq!['\\'] || (bad.len() >= 2 && bad[0] == '\\' && simple_escape(bad[1]) is None
            && bad[1] != 'u' && bad[1] != 'U'),
    ensures
        unescaped(escape(t) + bad) == Err::<Seq<char>, int>(escape(t).len() as int),
{
    lemma_unescape_after_escape(t, bad);
}

} // verus!
