//! The VDF grammar, stated mathematically over byte sequences.
//!
//! Every rule is a function from the input and a start position to an
//! outcome: the parsed denotation together with the position just past the
//! consumed text, a mismatch (the rule does not apply there, and an enclosing
//! ordered choice may try its next alternative), or an integer overflow in a
//! `Number` literal, which aborts the whole parse.  The executable parser in
//! `acf` is proved to return exactly these outcomes.
//!
//! The grammar, with alternatives tried strictly in the order written:
//! ```text
//! Manifest   := ws* Identifier ws+ Bundle ws*
//! Bundle     := ws* "{" ws* Entry (ws+ Entry)* ws* "}"
//! Entry      := Identifier ws* Value
//! Value      := Number | Identifier-as-Text | Path | Bundle
//! Number     := '"' '-'? [0-9]+ '"'          (as a 64-bit signed integer)
//! Identifier := '"' [A-Za-z0-9:\- ]* '"'
//! Path       := '"' [A-Za-z0-9./\-_+~]* '"'
//! ws         := ' ' | '\t' | '\r' | '\n'
//! ```
use vstd::prelude::*;

use crate::acf::ValueRep;

verus! {

/// `"` starts and ends every quoted token.
pub const QUOTE: u8 = 34;

/// `-`, the optional sign of a number (also an ordinary text character).
pub const MINUS: u8 = 45;

/// `{` opens a bundle.
pub const LBRACE: u8 = 123;

/// `}` closes a bundle.
pub const RBRACE: u8 = 125;

/// The character classes the grammar scans runs of.
#[derive(Clone, Copy)]
pub enum CharClass {
    Whitespace,
    Digit,
    Text,
    Path,
}

pub open spec fn is_ws_byte(b: u8) -> bool {
    b == 32 || b == 9 || b == 13 || b == 10
}

pub open spec fn is_digit_byte(b: u8) -> bool {
    48 <= b && b <= 57
}

pub open spec fn is_alpha_byte(b: u8) -> bool {
    (65 <= b && b <= 90) || (97 <= b && b <= 122)
}

/// The characters an `Identifier` (and hence a `Text` value) may hold:
/// alphanumerics, `:`, `-` and space.
pub open spec fn is_text_byte(b: u8) -> bool {
    is_alpha_byte(b) || is_digit_byte(b) || b == 58 || b == 45 || b == 32
}

/// The characters a `Path` value may hold: alphanumerics, `.`, `/`, `-`,
/// `_`, `+` and `~`.
pub open spec fn is_path_byte(b: u8) -> bool {
    is_alpha_byte(b) || is_digit_byte(b) || b == 46 || b == 47 || b == 45 || b == 95 || b == 43
        || b == 126
}

pub open spec fn in_class(c: CharClass, b: u8) -> bool {
    match c {
        CharClass::Whitespace => is_ws_byte(b),
        CharClass::Digit => is_digit_byte(b),
        CharClass::Text => is_text_byte(b),
        CharClass::Path => is_path_byte(b),
    }
}

/// The end of the run of class `c` that starts at `i`: the first position at
/// or after `i` that is outside the input or holds a byte outside the class.
pub open spec fn scan_while(s: Seq<u8>, i: int, c: CharClass) -> int
    decreases s.len() - i,
{
    if 0 <= i && i < s.len() && in_class(c, s[i]) {
        scan_while(s, i + 1, c)
    } else {
        i
    }
}

pub proof fn lemma_scan_while(s: Seq<u8>, i: int, c: CharClass)
    requires
        0 <= i <= s.len(),
    ensures
        i <= scan_while(s, i, c) <= s.len(),
        forall|k: int| i <= k < scan_while(s, i, c) ==> in_class(c, s[k]),
        scan_while(s, i, c) < s.len() ==> !in_class(c, s[scan_while(s, i, c)]),
    decreases s.len() - i,
{
    if i < s.len() && in_class(c, s[i]) {
        lemma_scan_while(s, i + 1, c);
    }
}

/// Scanning stops exactly at `j` when everything from `i` up to `j` is in
/// the class and `j` is the end of the text or holds a byte outside it.
pub proof fn lemma_scan_while_exact(s: Seq<u8>, i: int, j: int, c: CharClass)
    requires
        0 <= i <= j <= s.len(),
        forall|k: int| i <= k < j ==> in_class(c, s[k]),
        j < s.len() ==> !in_class(c, s[j]),
    ensures
        scan_while(s, i, c) == j,
    decreases j - i,
{
    if i < j {
        lemma_scan_while_exact(s, i + 1, j, c);
    }
}

/// The characters spelled by the bytes `s[a .. b]`.
pub open spec fn chars_of(s: Seq<u8>, a: int, b: int) -> Seq<char> {
    Seq::new(if a <= b { (b - a) as nat } else { 0 }, |k: int| s[a + k] as char)
}

/// The value of the decimal digits `s[a .. b]`, most significant first.
pub open spec fn digits_value(s: Seq<u8>, a: int, b: int) -> int
    decreases b - a,
{
    if b <= a {
        0
    } else {
        digits_value(s, a, b - 1) * 10 + (s[b - 1] - 48)
    }
}

/// A digit run keeps its value when read through an embedding that keeps
/// the bytes.
pub proof fn lemma_digits_value_shift(s: Seq<u8>, d: Seq<u8>, off: int, a: int, b: int)
    requires
        forall|k: int| a <= k < b ==> s[off + k] == d[k],
    ensures
        digits_value(s, off + a, off + b) == digits_value(d, a, b),
    decreases b - a,
{
    if a < b {
        lemma_digits_value_shift(s, d, off, a, b - 1);
    }
}

/// Whether some entry of `es` carries the key.
pub open spec fn has_key(es: Seq<(Seq<char>, ValueRep)>, key: Seq<char>) -> bool {
    exists|i: int| 0 <= i < es.len() && es[i].0 == key
}

/// The outcome of one grammar rule applied at one position.
pub enum Parsed<T> {
    /// The rule matched: its denotation, and the position just past it.
    Found(T, int),
    /// The rule does not match here; an enclosing choice may backtrack.
    Mismatch,
    /// A `Number` literal's digits do not fit a 64-bit signed integer;
    /// the whole parse is abandoned.
    Overflow,
}

/// A quoted run of class `c` at `i`: `'"' [c]* '"'`.  Yields the content
/// range `(a, b)`; the token ends at `b + 1`, past the closing quote.
pub open spec fn spec_quoted(s: Seq<u8>, i: int, c: CharClass) -> Option<(int, int)> {
    if 0 <= i && i < s.len() && s[i] == QUOTE {
        let b = scan_while(s, i + 1, c);
        if b < s.len() && s[b] == QUOTE {
            Some((i + 1, b))
        } else {
            None
        }
    } else {
        None
    }
}

/// The `Identifier` rule: a quoted run of text characters, possibly empty.
/// Yields the content characters and the position past the token.
pub open spec fn spec_text(s: Seq<u8>, i: int) -> Option<(Seq<char>, int)> {
    match spec_quoted(s, i, CharClass::Text) {
        Some((a, b)) => Some((chars_of(s, a, b), b + 1)),
        None => None,
    }
}

/// The `Path` rule: a quoted run of path characters, possibly empty.
pub open spec fn spec_path(s: Seq<u8>, i: int) -> Option<(Seq<char>, int)> {
    match spec_quoted(s, i, CharClass::Path) {
        Some((a, b)) => Some((chars_of(s, a, b), b + 1)),
        None => None,
    }
}

/// The `Number` rule: a quoted, optionally `-`-signed, nonempty digit run.
/// A syntactically complete literal whose value does not fit an `i64`
/// aborts the parse with `Overflow`.
pub open spec fn spec_number(s: Seq<u8>, i: int) -> Parsed<int> {
    if 0 <= i && i < s.len() && s[i] == QUOTE {
        let a = i + 1;
        let d = if a < s.len() && s[a] == MINUS {
            a + 1
        } else {
            a
        };
        let b = scan_while(s, d, CharClass::Digit);
        if b == d {
            // no digits
            Parsed::Mismatch
        } else if b < s.len() && s[b] == QUOTE {
            let v = if d > a {
                -digits_value(s, d, b)
            } else {
                digits_value(s, d, b)
            };
            if i64::MIN <= v && v <= i64::MAX {
                Parsed::Found(v, b + 1)
            } else {
                Parsed::Overflow
            }
        } else {
            Parsed::Mismatch
        }
    } else {
        Parsed::Mismatch
    }
}

pub proof fn lemma_spec_text_found(s: Seq<u8>, i: int)
    ensures
        spec_text(s, i) matches Some((t, j)) ==> i < j <= s.len(),
{
    if 0 <= i && i < s.len() && s[i] == QUOTE {
        lemma_scan_while(s, i + 1, CharClass::Text);
    }
}

/// The `Value` rule: `Number | Identifier-as-Text | Path | Bundle`, in that
/// order.  The order is load-bearing: a pure digit string satisfies all three
/// leaf classes and must come out a `Number`.
pub open spec fn spec_value(s: Seq<u8>, i: int) -> Parsed<ValueRep>
    decreases s.len() - i, 3int,
{
    if !(0 <= i <= s.len()) {
        // positions outside the text never match
        Parsed::Mismatch
    } else {
        match spec_number(s, i) {
            Parsed::Found(n, j) => Parsed::Found(ValueRep::Number(n), j),
            Parsed::Overflow => Parsed::Overflow,
            Parsed::Mismatch => match spec_text(s, i) {
                Some((t, j)) => Parsed::Found(ValueRep::Text(t), j),
                None => match spec_path(s, i) {
                    Some((p, j)) => Parsed::Found(ValueRep::Path(p), j),
                    None => match spec_bundle(s, i) {
                        Parsed::Found(es, j) => Parsed::Found(ValueRep::Bundle(es), j),
                        Parsed::Overflow => Parsed::Overflow,
                        Parsed::Mismatch => Parsed::Mismatch,
                    },
                },
            },
        }
    }
}

/// The `Bundle` rule: `ws* "{" ws* Entry (ws+ Entry)* ws* "}"`.  At least one
/// entry; an empty pair of braces does not match.
pub open spec fn spec_bundle(s: Seq<u8>, i: int) -> Parsed<Seq<(Seq<char>, ValueRep)>>
    decreases s.len() - i, 2int,
    via spec_bundle_decreases
{
    if !(0 <= i <= s.len()) {
        Parsed::Mismatch
    } else {
        let j = scan_while(s, i, CharClass::Whitespace);
        if j < s.len() && s[j] == LBRACE {
            let k = scan_while(s, j + 1, CharClass::Whitespace);
            match spec_entries(s, k) {
                Parsed::Found(es, m) => {
                    let e = scan_while(s, m, CharClass::Whitespace);
                    if e < s.len() && s[e] == RBRACE {
                        Parsed::Found(es, e + 1)
                    } else {
                        Parsed::Mismatch
                    }
                },
                Parsed::Overflow => Parsed::Overflow,
                Parsed::Mismatch => Parsed::Mismatch,
            }
        } else {
            Parsed::Mismatch
        }
    }
}

#[via_fn]
proof fn spec_bundle_decreases(s: Seq<u8>, i: int) {
    if 0 <= i <= s.len() {
        lemma_scan_while(s, i, CharClass::Whitespace);
        let j = scan_while(s, i, CharClass::Whitespace);
        if j < s.len() {
            lemma_scan_while(s, j + 1, CharClass::Whitespace);
        }
    }
}

/// One or more entries separated by at least one whitespace character.
/// After the last entry that matches, the position backtracks to just past
/// that entry, before any separator whitespace.
///
/// A bundle is a mapping, so its keys are unique: when a later entry repeats
/// a key, the earlier entry is dropped and the later one — the last write —
/// wins.
pub open spec fn spec_entries(s: Seq<u8>, i: int) -> Parsed<Seq<(Seq<char>, ValueRep)>>
    decreases s.len() - i, 1int,
    via spec_entries_decreases
{
    if !(0 <= i <= s.len()) {
        Parsed::Mismatch
    } else {
        match spec_entry(s, i) {
            Parsed::Found(e, j) => if i < j <= s.len() {
                let k = scan_while(s, j, CharClass::Whitespace);
                if j < k {
                    match spec_entries(s, k) {
                        Parsed::Found(rest, m) => Parsed::Found(
                            if has_key(rest, e.0) {
                                rest
                            } else {
                                seq![e] + rest
                            },
                            m,
                        ),
                        Parsed::Overflow => Parsed::Overflow,
                        Parsed::Mismatch => Parsed::Found(seq![e], j),
                    }
                } else {
                    Parsed::Found(seq![e], j)
                }
            } else {
                // an entry always consumes text, so this arm is never taken
                Parsed::Mismatch
            },
            Parsed::Overflow => Parsed::Overflow,
            Parsed::Mismatch => Parsed::Mismatch,
        }
    }
}

#[via_fn]
proof fn spec_entries_decreases(s: Seq<u8>, i: int) {
    assert forall|j: int| 0 <= j <= s.len() implies j <= #[trigger] scan_while(
        s,
        j,
        CharClass::Whitespace,
    ) <= s.len() by {
        lemma_scan_while(s, j, CharClass::Whitespace);
    }
}

/// The `Entry` rule: an identifier key, optional whitespace, then a value.
pub open spec fn spec_entry(s: Seq<u8>, i: int) -> Parsed<(Seq<char>, ValueRep)>
    decreases s.len() - i, 0int,
    via spec_entry_decreases
{
    if !(0 <= i <= s.len()) {
        Parsed::Mismatch
    } else {
        match spec_text(s, i) {
            Some((key, j)) => {
                let k = scan_while(s, j, CharClass::Whitespace);
                match spec_value(s, k) {
                    Parsed::Found(v, m) => Parsed::Found(((key, v)), m),
                    Parsed::Overflow => Parsed::Overflow,
                    Parsed::Mismatch => Parsed::Mismatch,
                }
            },
            None => Parsed::Mismatch,
        }
    }
}

#[via_fn]
proof fn spec_entry_decreases(s: Seq<u8>, i: int) {
    if 0 <= i <= s.len() {
        lemma_spec_text_found(s, i);
        match spec_text(s, i) {
            Some((key, j)) => {
                lemma_scan_while(s, j, CharClass::Whitespace);
            },
            None => {},
        }
    }
}

/// `spec_value` as a whole-input rule: the value must end exactly at the end
/// of the text, as every published entry point of the parser demands.
pub open spec fn spec_value_complete(s: Seq<u8>) -> Parsed<ValueRep> {
    match spec_value(s, 0) {
        Parsed::Found(v, j) => if j == s.len() {
            Parsed::Found(v, j)
        } else {
            Parsed::Mismatch
        },
        o => o,
    }
}

/// `spec_bundle` as a whole-input rule.
pub open spec fn spec_bundle_complete(s: Seq<u8>) -> Parsed<Seq<(Seq<char>, ValueRep)>> {
    match spec_bundle(s, 0) {
        Parsed::Found(es, j) => if j == s.len() {
            Parsed::Found(es, j)
        } else {
            Parsed::Mismatch
        },
        o => o,
    }
}

/// `spec_entry` as a whole-input rule.
pub open spec fn spec_entry_complete(s: Seq<u8>) -> Parsed<(Seq<char>, ValueRep)> {
    match spec_entry(s, 0) {
        Parsed::Found(e, j) => if j == s.len() {
            Parsed::Found(e, j)
        } else {
            Parsed::Mismatch
        },
        o => o,
    }
}

/// The `Manifest` rule: `ws* Identifier ws+ Bundle ws*`, which must consume
/// the whole input.  Yields the identifier and the bundle's entries.
pub open spec fn spec_vdf(s: Seq<u8>) -> Parsed<(Seq<char>, Seq<(Seq<char>, ValueRep)>)> {
    let i = scan_while(s, 0, CharClass::Whitespace);
    match spec_text(s, i) {
        Some((id, j)) => {
            let k = scan_while(s, j, CharClass::Whitespace);
            if j < k {
                match spec_bundle(s, k) {
                    Parsed::Found(es, m) => {
                        let e = scan_while(s, m, CharClass::Whitespace);
                        if e == s.len() {
                            Parsed::Found(((id, es)), e)
                        } else {
                            Parsed::Mismatch
                        }
                    },
                    Parsed::Overflow => Parsed::Overflow,
                    Parsed::Mismatch => Parsed::Mismatch,
                }
            } else {
                Parsed::Mismatch
            }
        },
        None => Parsed::Mismatch,
    }
}

} // verus!
