//! The VDF/ACF value model — a closed tagged union of four variants, where
//! `Bundle` maps string keys to nested values — together with the
//! recursive-descent parser that builds it and typed extraction over it.
//!
//! The parser is proved to return exactly the outcome of the grammar in
//! `crate::grammar`, applied to the input bytes.
use vstd::prelude::*;
use vstd::string::StringSliceAdditionalSpecFns;

use crate::grammar::CharClass;
use crate::grammar::LBRACE;
use crate::grammar::MINUS;
use crate::grammar::Parsed;
use crate::grammar::QUOTE;
use crate::grammar::RBRACE;
use crate::grammar::chars_of;
use crate::grammar::digits_value;
use crate::grammar::has_key;
use crate::grammar::in_class;
use crate::grammar::scan_while;
use crate::grammar::spec_bundle;
use crate::grammar::spec_entries;
use crate::grammar::spec_entry;
use crate::grammar::spec_number;
use crate::grammar::spec_path;
use crate::grammar::spec_quoted;
use crate::grammar::spec_text;
use crate::grammar::spec_value;
use crate::grammar::spec_value_complete;
use crate::grammar::spec_bundle_complete;
use crate::grammar::spec_entry_complete;
use crate::grammar::spec_vdf;

verus! {

broadcast use vstd::std_specs::vec::group_vec_axioms, vstd::slice::group_slice_axioms;

/// A filesystem path value, kept as its text.
#[derive(Debug, PartialEq)]
pub struct PathString(pub String);

impl PathString {
    /// The path's text.
    pub fn as_str(&self) -> (r: &str)
        ensures
            r@ == self.0@,
    {
        self.0.as_str()
    }
}

/// One parsed value: a signed integer, a plain string, a filesystem path
/// (kept as its text), or a nested key-value bundle.
#[derive(Debug, PartialEq)]
pub enum ValueExpression {
    Number(i64),
    Text(String),
    Path(PathString),
    Bundle(Bundle),
}

/// A mapping from string keys to nested values.  The parser keeps each key
/// once: when the text repeats a key, the last write wins and the earlier
/// entry is dropped (`wf`).
#[derive(Debug, PartialEq)]
pub struct Bundle(pub Vec<(String, ValueExpression)>);

/// The mathematical shape of a parsed value: integers, character sequences,
/// and key-value sequences in place of the executable types.
pub enum ValueRep {
    Number(int),
    Text(Seq<char>),
    Path(Seq<char>),
    Bundle(Seq<(Seq<char>, ValueRep)>),
}

impl ValueExpression {
    /// What this value denotes, leaf payloads replaced by their views.
    pub open spec fn rep(self) -> ValueRep
        decreases self,
    {
        match self {
            ValueExpression::Number(n) => ValueRep::Number(n as int),
            ValueExpression::Text(s) => ValueRep::Text(s@),
            ValueExpression::Path(p) => ValueRep::Path(p.0@),
            ValueExpression::Bundle(b) => ValueRep::Bundle(rep_entries(b.0@)),
        }
    }
}

/// The views of a sequence of key-value entries, in order.
pub open spec fn rep_entries(s: Seq<(String, ValueExpression)>) -> Seq<(Seq<char>, ValueRep)>
    decreases s,
{
    if s.len() == 0 {
        Seq::empty()
    } else {
        seq![(s[0].0@, s[0].1.rep())] + rep_entries(s.subrange(1, s.len() as int))
    }
}

impl Bundle {
    /// The key-value entries this bundle holds, in order, as views.
    pub open spec fn rep(self) -> Seq<(Seq<char>, ValueRep)> {
        rep_entries(self.0@)
    }

    /// The mapping invariant: every key appears in one entry only, at every
    /// nesting level.  Every bundle the parser returns satisfies it.
    pub open spec fn wf(self) -> bool {
        wf_entries(self.0@)
    }
}

impl ValueExpression {
    /// Every bundle inside this value holds pairwise distinct keys.
    pub open spec fn wf(self) -> bool
        decreases self,
    {
        match self {
            ValueExpression::Bundle(b) => wf_entries(b.0@),
            _ => true,
        }
    }
}

/// The first entry's key appears nowhere later, its value is well formed,
/// and the same holds down the rest of the entries.
pub open spec fn wf_entries(s: Seq<(String, ValueExpression)>) -> bool
    decreases s,
{
    if s.len() == 0 {
        true
    } else {
        (forall|j: int| 1 <= j < s.len() ==> (#[trigger] s[j]).0@ != s[0].0@) && s[0].1.wf()
            && wf_entries(
            s.subrange(1, s.len() as int),
        )
    }
}

/// `rep_entries` is the entrywise view: same length, entry for entry.
pub proof fn lemma_rep_entries_index(s: Seq<(String, ValueExpression)>)
    ensures
        rep_entries(s).len() == s.len(),
        forall|i: int| 0 <= i < s.len() ==> rep_entries(s)[i] == (s[i].0@, s[i].1.rep()),
    decreases s.len(),
{
    if s.len() > 0 {
        lemma_rep_entries_index(s.subrange(1, s.len() as int));
        assert forall|i: int| 0 <= i < s.len() implies rep_entries(s)[i] == (
            s[i].0@,
            s[i].1.rep(),
        ) by {
            if i >= 1 {
                assert(s.subrange(1, s.len() as int)[i - 1] == s[i]);
            }
        }
    }
}

/// The root parse result: the outer identifier token and one bundle.
#[derive(Debug)]
pub struct Manifest {
    pub id: String,
    pub bundle: Bundle,
}

impl Manifest {
    /// The identifier and the bundle entries this manifest denotes.
    pub open spec fn rep(self) -> (Seq<char>, Seq<(Seq<char>, ValueRep)>) {
        (self.id@, self.bundle.rep())
    }

    /// The outer identifier token.
    pub fn id(&self) -> (r: &str)
        ensures
            r@ == self.rep().0,
    {
        self.id.as_str()
    }
}

/// How a parse failed.
#[derive(Clone, Copy, Debug, PartialEq, Eq, Structural)]
pub enum ParseErrorKind {
    /// The text does not match the grammar.
    Syntax,
    /// A `Number` literal's digits do not fit a 64-bit signed integer.
    IntegerOverflow,
}

/// A failed parse: the byte position of the rule that failed, and what went
/// wrong there.
#[derive(Clone, Copy, Debug, PartialEq, Eq, Structural)]
pub struct ParseError {
    /// Byte offset into the input near which the failure was noticed.
    pub pos: usize,
    pub kind: ParseErrorKind,
}

impl ParseError {
    /// What the parser expected where it failed, in words.
    pub fn describe(&self) -> (r: &'static str)
        ensures
            self.kind == ParseErrorKind::Syntax ==> r@ == "a token the grammar accepts"@,
            self.kind == ParseErrorKind::IntegerOverflow ==> r@
                == "a number that fits 64 signed bits"@,
    {
        match self.kind {
            ParseErrorKind::Syntax => "a token the grammar accepts",
            ParseErrorKind::IntegerOverflow => "a number that fits 64 signed bits",
        }
    }
}

/// Relies on `String::push`: appends one character to the string.
#[verifier::external_body]
fn push_char(s: &mut String, c: char)
    ensures
        final(s)@ == old(s)@.push(c),
{
    s.push(c)
}

fn byte_in_class(c: CharClass, b: u8) -> (r: bool)
    ensures
        r == in_class(c, b),
{
    match c {
        CharClass::Whitespace => b == 32 || b == 9 || b == 13 || b == 10,
        CharClass::Digit => 48 <= b && b <= 57,
        CharClass::Text => (65 <= b && b <= 90) || (97 <= b && b <= 122) || (48 <= b && b <= 57)
            || b == 58 || b == 45 || b == 32,
        CharClass::Path => (65 <= b && b <= 90) || (97 <= b && b <= 122) || (48 <= b && b <= 57)
            || b == 46 || b == 47 || b == 45 || b == 95 || b == 43 || b == 126,
    }
}

/// Scans past the run of class `c` that starts at `i`.
fn class_end(s: &[u8], i: usize, c: CharClass) -> (r: usize)
    requires
        i <= s@.len(),
    ensures
        r as int == scan_while(s@, i as int, c),
        i <= r <= s@.len(),
{
    let mut j = i;
    while j < s.len() && byte_in_class(c, s[j])
        invariant
            i <= j <= s@.len(),
            scan_while(s@, i as int, c) == scan_while(s@, j as int, c),
        decreases s@.len() - j,
    {
        j = j + 1;
    }
    j
}

/// Copies the characters spelled by the bytes `s[a .. b]` into a fresh string.
fn read_chars(s: &[u8], a: usize, b: usize) -> (r: String)
    requires
        a <= b <= s@.len(),
    ensures
        r@ == chars_of(s@, a as int, b as int),
{
    let mut out = String::new();
    let mut j = a;
    while j < b
        invariant
            a <= j <= b <= s@.len(),
            out@ == chars_of(s@, a as int, j as int),
        decreases b - j,
    {
        push_char(&mut out, s[j] as char);
        j = j + 1;
        proof {
            assert(out@ =~= chars_of(s@, a as int, j as int));
        }
    }
    out
}

/// Matches `'"' [c]* '"'` at `i`; returns the content range.
fn parse_quoted(s: &[u8], i: usize, c: CharClass) -> (r: Option<(usize, usize)>)
    requires
        i <= s@.len(),
    ensures
        match r {
            Some((a, b)) => spec_quoted(s@, i as int, c) == Some((a as int, b as int)) && i < a <= b
                < s@.len() && s@.len() <= usize::MAX,
            None => spec_quoted(s@, i as int, c) is None,
        },
{
    if i < s.len() && s[i] == QUOTE {
        let b = class_end(s, i + 1, c);
        if b < s.len() && s[b] == QUOTE {
            Some((i + 1, b))
        } else {
            None
        }
    } else {
        None
    }
}

/// One more than the magnitude of the most negative 64-bit signed integer:
/// a digit run reaching this value cannot be a `Number`, whatever the sign.
const DIGIT_CAP: u64 = 9223372036854775809;

/// The magnitude of the most negative 64-bit signed integer.
const NEG_LIMIT: u64 = 9223372036854775808;

/// The `Number` rule at `i`; yields the integer and the position past the
/// closing quote.  A complete literal whose digits do not fit an `i64` is
/// the one non-backtrackable failure.
fn parse_number(s: &[u8], i: usize) -> (r: Result<(i64, usize), ParseError>)
    requires
        i <= s@.len(),
    ensures
        match spec_number(s@, i as int) {
            Parsed::Found(n, q) => r matches Ok(p) && p.0 as int == n && p.1 as int == q && i < p.1
                <= s@.len(),
            Parsed::Mismatch => r matches Err(e) && e.kind == ParseErrorKind::Syntax,
            Parsed::Overflow => r matches Err(e) && e.kind == ParseErrorKind::IntegerOverflow,
        },
{
    if !(i < s.len() && s[i] == QUOTE) {
        return Err(ParseError { pos: i, kind: ParseErrorKind::Syntax });
    }
    let a = i + 1;
    let neg = a < s.len() && s[a] == MINUS;
    let d0 = if neg {
        a + 1
    } else {
        a
    };
    let b = class_end(s, d0, CharClass::Digit);
    if b == d0 {
        // no digits at all
        return Err(ParseError { pos: d0, kind: ParseErrorKind::Syntax });
    }
    if !(b < s.len() && s[b] == QUOTE) {
        return Err(ParseError { pos: b, kind: ParseErrorKind::Syntax });
    }
    proof {
        crate::grammar::lemma_scan_while(s@, d0 as int, CharClass::Digit);
    }
    // The magnitude, clamped at DIGIT_CAP: every value at or above the clamp
    // overflows an i64 under either sign.
    let mut acc: u64 = 0;
    let mut j = d0;
    while j < b
        invariant
            d0 <= j <= b <= s@.len(),
            forall|k: int| d0 <= k < b ==> crate::grammar::is_digit_byte(s@[k]),
            0 <= digits_value(s@, d0 as int, j as int),
            digits_value(s@, d0 as int, j as int) <= DIGIT_CAP ==> acc as int == digits_value(
                s@,
                d0 as int,
                j as int,
            ),
            digits_value(s@, d0 as int, j as int) >= DIGIT_CAP ==> acc == DIGIT_CAP,
        decreases b - j,
    {
        let d: u8 = s[j] - 48;
        if acc >= DIGIT_CAP {
            // already too large; larger still with one more digit
        } else {
            let wide: u128 = (acc as u128) * 10 + (d as u128);
            if wide > DIGIT_CAP as u128 {
                acc = DIGIT_CAP;
            } else {
                acc = wide as u64;
            }
        }
        j = j + 1;
    }
    if neg {
        if acc <= NEG_LIMIT {
            let v: i64 = if acc == NEG_LIMIT {
                i64::MIN
            } else {
                -(acc as i64)
            };
            Ok((v, b + 1))
        } else {
            Err(ParseError { pos: i, kind: ParseErrorKind::IntegerOverflow })
        }
    } else {
        if acc <= NEG_LIMIT - 1 {
            Ok((acc as i64, b + 1))
        } else {
            Err(ParseError { pos: i, kind: ParseErrorKind::IntegerOverflow })
        }
    }
}

/// The `Identifier` rule at `i`; yields the content and the position past
/// the closing quote.
fn parse_text(s: &[u8], i: usize) -> (r: Option<(String, usize)>)
    requires
        i <= s@.len(),
    ensures
        match r {
            Some((t, q)) => spec_text(s@, i as int) == Some((t@, q as int)) && i < q <= s@.len(),
            None => spec_text(s@, i as int) is None,
        },
{
    match parse_quoted(s, i, CharClass::Text) {
        Some((a, b)) => {
            let t = read_chars(s, a, b);
            Some((t, b + 1))
        },
        None => None,
    }
}

/// The `Path` rule at `i`.
fn parse_path(s: &[u8], i: usize) -> (r: Option<(String, usize)>)
    requires
        i <= s@.len(),
    ensures
        match r {
            Some((t, q)) => spec_path(s@, i as int) == Some((t@, q as int)) && i < q <= s@.len(),
            None => spec_path(s@, i as int) is None,
        },
{
    match parse_quoted(s, i, CharClass::Path) {
        Some((a, b)) => {
            let t = read_chars(s, a, b);
            Some((t, b + 1))
        },
        None => None,
    }
}

/// The `Value` rule at `i`: `Number | Text | Path | Bundle`, in that order.
fn parse_value(s: &[u8], i: usize) -> (r: Result<(ValueExpression, usize), ParseError>)
    requires
        i <= s@.len(),
    ensures
        match spec_value(s@, i as int) {
            Parsed::Found(m, q) => r matches Ok(p) && p.0.rep() == m && p.0.wf() && p.1 as int == q
                && i < p.1 <= s@.len(),
            Parsed::Mismatch => r matches Err(e) && e.kind == ParseErrorKind::Syntax,
            Parsed::Overflow => r matches Err(e) && e.kind == ParseErrorKind::IntegerOverflow,
        },
    decreases s@.len() - i, 3int,
{
    match parse_number(s, i) {
        Ok((n, q)) => Ok((ValueExpression::Number(n), q)),
        Err(e) => match e.kind {
            ParseErrorKind::IntegerOverflow => Err(e),
            ParseErrorKind::Syntax => match parse_text(s, i) {
                Some((t, q)) => Ok((ValueExpression::Text(t), q)),
                None => match parse_path(s, i) {
                    Some((p, q)) => Ok((ValueExpression::Path(PathString(p)), q)),
                    None => match parse_bundle(s, i) {
                        Ok((b, q)) => Ok((ValueExpression::Bundle(b), q)),
                        Err(e2) => Err(e2),
                    },
                },
            },
        },
    }
}

/// The `Bundle` rule at `i`: optional whitespace, `{`, one or more entries,
/// `}`.
fn parse_bundle(s: &[u8], i: usize) -> (r: Result<(Bundle, usize), ParseError>)
    requires
        i <= s@.len(),
    ensures
        match spec_bundle(s@, i as int) {
            Parsed::Found(es, q) => r matches Ok(p) && p.0.rep() == es && p.0.wf() && p.1 as int
                == q && i < p.1 <= s@.len(),
            Parsed::Mismatch => r matches Err(e) && e.kind == ParseErrorKind::Syntax,
            Parsed::Overflow => r matches Err(e) && e.kind == ParseErrorKind::IntegerOverflow,
        },
    decreases s@.len() - i, 2int,
{
    let j = class_end(s, i, CharClass::Whitespace);
    if !(j < s.len() && s[j] == LBRACE) {
        return Err(ParseError { pos: j, kind: ParseErrorKind::Syntax });
    }
    let k = class_end(s, j + 1, CharClass::Whitespace);
    match parse_entries(s, k) {
        Ok((entries, m)) => {
            let e = class_end(s, m, CharClass::Whitespace);
            if e < s.len() && s[e] == RBRACE {
                Ok((Bundle(entries), e + 1))
            } else {
                Err(ParseError { pos: e, kind: ParseErrorKind::Syntax })
            }
        },
        Err(e) => Err(e),
    }
}

/// Whether some entry of the list carries this key.
fn contains_key(v: &Vec<(String, ValueExpression)>, key: &String) -> (r: bool)
    ensures
        r == has_key(rep_entries(v@), key@),
{
    let mut i: usize = 0;
    while i < v.len()
        invariant
            i <= v@.len(),
            forall|j: int| 0 <= j < i ==> v@[j].0@ != key@,
        decreases v@.len() - i,
    {
        if v[i].0 == *key {
            proof {
                lemma_rep_entries_index(v@);
                assert(rep_entries(v@)[i as int].0 == key@);
            }
            return true;
        }
        i = i + 1;
    }
    proof {
        lemma_rep_entries_index(v@);
        assert forall|j: int| 0 <= j < rep_entries(v@).len() implies rep_entries(v@)[j].0
            != key@ by {
            assert(rep_entries(v@)[j] == (v@[j].0@, v@[j].1.rep()));
        }
    }
    false
}

/// A one-entry list.
fn single_entry(key: String, val: ValueExpression) -> (r: Vec<(String, ValueExpression)>)
    ensures
        rep_entries(r@) == seq![(key@, val.rep())],
        wf_entries(r@) == val.wf(),
{
    let mut out: Vec<(String, ValueExpression)> = Vec::new();
    out.push((key, val));
    proof {
        assert(out@.subrange(1, out@.len() as int) =~= Seq::<(String, ValueExpression)>::empty());
        assert(rep_entries(Seq::<(String, ValueExpression)>::empty()) =~= Seq::<(
            Seq<char>,
            ValueRep,
        )>::empty());
        assert(rep_entries(out@) =~= seq![(out@[0].0@, out@[0].1.rep())]);
        assert(wf_entries(Seq::<(String, ValueExpression)>::empty()));
    }
    out
}

/// One or more entries separated by at least one whitespace character, as
/// many as match, each key kept once (the last write wins).
fn parse_entries(s: &[u8], i: usize) -> (r: Result<
    (Vec<(String, ValueExpression)>, usize),
    ParseError,
>)
    requires
        i <= s@.len(),
    ensures
        match spec_entries(s@, i as int) {
            Parsed::Found(es, q) => r matches Ok(p) && rep_entries(p.0@) == es && wf_entries(p.0@)
                && p.1 as int == q && i < p.1 <= s@.len(),
            Parsed::Mismatch => r matches Err(e) && e.kind == ParseErrorKind::Syntax,
            Parsed::Overflow => r matches Err(e) && e.kind == ParseErrorKind::IntegerOverflow,
        },
    decreases s@.len() - i, 1int,
{
    match parse_entry(s, i) {
        Ok(((key, val), j)) => {
            let w = class_end(s, j, CharClass::Whitespace);
            if w > j {
                match parse_entries(s, w) {
                    Ok((mut rest, m)) => {
                        if contains_key(&rest, &key) {
                            // a later entry repeats this key and wins
                            Ok((rest, m))
                        } else {
                            let ghost tail = rest@;
                            rest.insert(0, (key, val));
                            proof {
                                assert(rest@.subrange(1, rest@.len() as int) =~= tail);
                                assert(rep_entries(rest@) == seq![(rest@[0].0@, rest@[0].1.rep())]
                                    + rep_entries(tail));
                                lemma_rep_entries_index(tail);
                                assert forall|k: int| 1 <= k < rest@.len() implies (
                                #[trigger] rest@[k]).0@ != rest@[0].0@ by {
                                    assert(rest@[k] == tail[k - 1]);
                                    assert(rep_entries(tail)[k - 1].0 == tail[k - 1].0@);
                                }
                            }
                            Ok((rest, m))
                        }
                    },
                    Err(e) => match e.kind {
                        ParseErrorKind::IntegerOverflow => Err(e),
                        ParseErrorKind::Syntax => Ok((single_entry(key, val), j)),
                    },
                }
            } else {
                Ok((single_entry(key, val), j))
            }
        },
        Err(e) => Err(e),
    }
}

/// The `Entry` rule at `i`: an identifier key, optional whitespace, a value.
fn parse_entry(s: &[u8], i: usize) -> (r: Result<((String, ValueExpression), usize), ParseError>)
    requires
        i <= s@.len(),
    ensures
        match spec_entry(s@, i as int) {
            Parsed::Found(e, q) => r matches Ok(p) && p.0.0@ == e.0 && p.0.1.rep() == e.1
                && p.0.1.wf() && p.1 as int == q && i < p.1 <= s@.len(),
            Parsed::Mismatch => r matches Err(e) && e.kind == ParseErrorKind::Syntax,
            Parsed::Overflow => r matches Err(e) && e.kind == ParseErrorKind::IntegerOverflow,
        },
    decreases s@.len() - i, 0int,
{
    match parse_text(s, i) {
        Some((key, j)) => {
            let k = class_end(s, j, CharClass::Whitespace);
            match parse_value(s, k) {
                Ok((v, m)) => Ok(((key, v), m)),
                Err(e) => Err(e),
            }
        },
        None => Err(ParseError { pos: i, kind: ParseErrorKind::Syntax }),
    }
}

/// Parses a whole text as the `Manifest` rule: `ws* Identifier ws+ Bundle
/// ws*`, consuming all of it.
pub fn vdf(text: &str) -> (r: Result<Manifest, ParseError>)
    ensures
        match spec_vdf(text.spec_bytes()) {
            Parsed::Found(m, q) => r matches Ok(man) && man.rep() == m && man.bundle.wf(),
            Parsed::Mismatch => r matches Err(e) && e.kind == ParseErrorKind::Syntax,
            Parsed::Overflow => r matches Err(e) && e.kind == ParseErrorKind::IntegerOverflow,
        },
{
    let s = text.as_bytes();
    let i = class_end(s, 0, CharClass::Whitespace);
    match parse_text(s, i) {
        Some((id, j)) => {
            let k = class_end(s, j, CharClass::Whitespace);
            if k == j {
                // the grammar wants at least one whitespace character here
                return Err(ParseError { pos: j, kind: ParseErrorKind::Syntax });
            }
            match parse_bundle(s, k) {
                Ok((b, m)) => {
                    let e = class_end(s, m, CharClass::Whitespace);
                    if e == s.len() {
                        Ok(Manifest { id, bundle: b })
                    } else {
                        Err(ParseError { pos: e, kind: ParseErrorKind::Syntax })
                    }
                },
                Err(e) => Err(e),
            }
        },
        None => Err(ParseError { pos: i, kind: ParseErrorKind::Syntax }),
    }
}

/// Parses one text buffer — the full contents of an `.acf`/`.vdf` file —
/// into a manifest, or reports the first failure.
pub fn parse(raw_vdf: &str) -> (r: Result<Manifest, ParseError>)
    ensures
        match spec_vdf(raw_vdf.spec_bytes()) {
            Parsed::Found(m, q) => r matches Ok(man) && man.rep() == m && man.bundle.wf(),
            Parsed::Mismatch => r matches Err(e) && e.kind == ParseErrorKind::Syntax,
            Parsed::Overflow => r matches Err(e) && e.kind == ParseErrorKind::IntegerOverflow,
        },
{
    vdf(raw_vdf)
}

/// Parses a whole text as the `Bundle` rule alone.
pub fn bundle(text: &str) -> (r: Result<Bundle, ParseError>)
    ensures
        match spec_bundle_complete(text.spec_bytes()) {
            Parsed::Found(es, q) => r matches Ok(b) && b.rep() == es && b.wf(),
            Parsed::Mismatch => r matches Err(e) && e.kind == ParseErrorKind::Syntax,
            Parsed::Overflow => r matches Err(e) && e.kind == ParseErrorKind::IntegerOverflow,
        },
{
    let s = text.as_bytes();
    match parse_bundle(s, 0) {
        Ok((b, q)) => {
            if q == s.len() {
                Ok(b)
            } else {
                Err(ParseError { pos: q, kind: ParseErrorKind::Syntax })
            }
        },
        Err(e) => Err(e),
    }
}

/// Parses a whole text as the `Entry` rule alone: a key and its value.
pub fn entry(text: &str) -> (r: Result<(String, ValueExpression), ParseError>)
    ensures
        match spec_entry_complete(text.spec_bytes()) {
            Parsed::Found(e, q) => r matches Ok(p) && p.0@ == e.0 && p.1.rep() == e.1 && p.1.wf(),
            Parsed::Mismatch => r matches Err(e) && e.kind == ParseErrorKind::Syntax,
            Parsed::Overflow => r matches Err(e) && e.kind == ParseErrorKind::IntegerOverflow,
        },
{
    let s = text.as_bytes();
    match parse_entry(s, 0) {
        Ok((kv, q)) => {
            if q == s.len() {
                Ok(kv)
            } else {
                Err(ParseError { pos: q, kind: ParseErrorKind::Syntax })
            }
        },
        Err(e) => Err(e),
    }
}

/// Parses a whole text as the `Value` rule alone.
pub fn value(text: &str) -> (r: Result<ValueExpression, ParseError>)
    ensures
        match spec_value_complete(text.spec_bytes()) {
            Parsed::Found(m, q) => r matches Ok(v) && v.rep() == m && v.wf(),
            Parsed::Mismatch => r matches Err(e) && e.kind == ParseErrorKind::Syntax,
            Parsed::Overflow => r matches Err(e) && e.kind == ParseErrorKind::IntegerOverflow,
        },
{
    let s = text.as_bytes();
    match parse_value(s, 0) {
        Ok((v, q)) => {
            if q == s.len() {
                Ok(v)
            } else {
                Err(ParseError { pos: q, kind: ParseErrorKind::Syntax })
            }
        },
        Err(e) => Err(e),
    }
}


/// The value stored at `key`: the last entry with that key, if any.
pub open spec fn lookup_entries(s: Seq<(String, ValueExpression)>, key: Seq<char>) -> Option<
    ValueExpression,
>
    decreases s.len(),
{
    if s.len() == 0 {
        None
    } else if s.last().0@ == key {
        Some(s.last().1)
    } else {
        lookup_entries(s.drop_last(), key)
    }
}

/// A key is found exactly when some entry carries it.
pub proof fn lemma_lookup_found(s: Seq<(String, ValueExpression)>, key: Seq<char>)
    ensures
        (lookup_entries(s, key) is Some) <==> exists|i: int| 0 <= i < s.len() && s[i].0@ == key,
    decreases s.len(),
{
    if s.len() > 0 {
        lemma_lookup_found(s.drop_last(), key);
        if s.last().0@ == key {
            assert(s[s.len() - 1].0@ == key);
        } else {
            if exists|i: int| 0 <= i < s.len() && s[i].0@ == key {
                let i = choose|i: int| 0 <= i < s.len() && s[i].0@ == key;
                assert(i != s.len() - 1);
                assert(s.drop_last()[i].0@ == key);
            }
            if exists|i: int| 0 <= i < s.len() - 1 && s.drop_last()[i].0@ == key {
                let i = choose|i: int| 0 <= i < s.len() - 1 && s.drop_last()[i].0@ == key;
                assert(s[i].0@ == key);
            }
        }
    }
}

impl Bundle {
    /// The value stored at `key`: with a duplicate key, the last entry wins.
    pub open spec fn lookup(self, key: Seq<char>) -> Option<ValueExpression> {
        lookup_entries(self.0@, key)
    }

    /// Looks a key up, returning whatever value is stored there.
    pub fn get(&self, key: &str) -> (r: Option<&ValueExpression>)
        ensures
            match r {
                Some(v) => self.lookup(key@) == Some(*v),
                None => self.lookup(key@) is None,
            },
    {
        let k = key.to_owned();
        let mut idx = self.0.len();
        proof {
            assert(self.0@.subrange(0, self.0@.len() as int) =~= self.0@);
        }
        while idx > 0
            invariant
                idx <= self.0@.len(),
                k@ == key@,
                lookup_entries(self.0@, key@) == lookup_entries(
                    self.0@.subrange(0, idx as int),
                    key@,
                ),
            decreases idx,
        {
            idx = idx - 1;
            let pair = &self.0[idx];
            proof {
                let pre = self.0@.subrange(0, idx + 1);
                assert(pre.drop_last() =~= self.0@.subrange(0, idx as int));
                assert(pre.last() == self.0@[idx as int]);
            }
            if pair.0 == k {
                return Some(&pair.1);
            }
        }
        proof {
            assert(self.0@.subrange(0, 0) =~= Seq::<(String, ValueExpression)>::empty());
        }
        None
    }

    /// Replaces the value stored at `key` — in the last entry that carries
    /// the key — leaving every other entry and all keys unchanged.  Returns
    /// whether the key was found; on a miss nothing changes.
    pub fn replace(&mut self, key: &str, value: ValueExpression) -> (r: bool)
        ensures
            r == (old(self).lookup(key@) is Some),
            !r ==> *final(self) == *old(self),
            r ==> exists|i: int|
                {
                    &&& 0 <= i < old(self).0@.len()
                    &&& old(self).0@[i].0@ == key@
                    &&& (forall|j: int|
                        i < j < old(self).0@.len() ==> old(self).0@[j].0@ != key@)
                    &&& final(self).0@ == old(self).0@.update(i, (old(self).0@[i].0, value))
                },
    {
        let k = key.to_owned();
        let mut idx = self.0.len();
        proof {
            assert(self.0@.subrange(0, self.0@.len() as int) =~= self.0@);
        }
        while idx > 0
            invariant
                idx <= self.0@.len(),
                k@ == key@,
                self == old(self),
                forall|j: int| idx <= j < self.0@.len() ==> self.0@[j].0@ != key@,
                lookup_entries(self.0@, key@) == lookup_entries(
                    self.0@.subrange(0, idx as int),
                    key@,
                ),
            decreases idx,
        {
            idx = idx - 1;
            proof {
                let pre = self.0@.subrange(0, idx + 1);
                assert(pre.drop_last() =~= self.0@.subrange(0, idx as int));
                assert(pre.last() == self.0@[idx as int]);
            }
            let hit = self.0[idx].0 == k;
            if hit {
                let ghost pre_key = self.0@[idx as int].0;
                let slot = &mut self.0[idx];
                slot.1 = value;
                proof {
                    assert(final(slot).0 == pre_key);
                }
                return true;
            }
        }
        proof {
            assert(self.0@.subrange(0, 0) =~= Seq::<(String, ValueExpression)>::empty());
        }
        false
    }
}

/// Typed extraction: the value stored at a key, handed out only when its
/// variant carries a payload of the requested type.  A missing key and a
/// key of the wrong variant both come out `None`.
pub trait Extract<T> {
    /// The payload `extract` would hand out of one stored value.
    spec fn select(v: ValueExpression) -> Option<T>;

    /// The value stored at `key`, before any variant check.
    spec fn stored(&self, key: Seq<char>) -> Option<ValueExpression>;

    /// The payload at `key`, if the key is there with the right variant.
    fn extract(&self, key: &str) -> (r: Option<&T>)
        ensures
            match r {
                Some(t) => self.stored(key@) matches Some(v) && Self::select(v) == Some(*t),
                None => match self.stored(key@) {
                    Some(v) => Self::select(v) is None,
                    None => true,
                },
            },
    ;
}

impl Extract<String> for Bundle {
    open spec fn select(v: ValueExpression) -> Option<String> {
        match v {
            ValueExpression::Text(s) => Some(s),
            _ => None,
        }
    }

    open spec fn stored(&self, key: Seq<char>) -> Option<ValueExpression> {
        self.lookup(key)
    }

    fn extract(&self, key: &str) -> (r: Option<&String>) {
        match self.get(key) {
            Some(ValueExpression::Text(s)) => Some(s),
            _ => None,
        }
    }
}

impl Extract<i64> for Bundle {
    open spec fn select(v: ValueExpression) -> Option<i64> {
        match v {
            ValueExpression::Number(n) => Some(n),
            _ => None,
        }
    }

    open spec fn stored(&self, key: Seq<char>) -> Option<ValueExpression> {
        self.lookup(key)
    }

    fn extract(&self, key: &str) -> (r: Option<&i64>) {
        match self.get(key) {
            Some(ValueExpression::Number(n)) => Some(n),
            _ => None,
        }
    }
}

impl Extract<PathString> for Bundle {
    open spec fn select(v: ValueExpression) -> Option<PathString> {
        match v {
            ValueExpression::Path(p) => Some(p),
            _ => None,
        }
    }

    open spec fn stored(&self, key: Seq<char>) -> Option<ValueExpression> {
        self.lookup(key)
    }

    fn extract(&self, key: &str) -> (r: Option<&PathString>) {
        match self.get(key) {
            Some(ValueExpression::Path(p)) => Some(p),
            _ => None,
        }
    }
}

impl Extract<Bundle> for Bundle {
    open spec fn select(v: ValueExpression) -> Option<Bundle> {
        match v {
            ValueExpression::Bundle(b) => Some(b),
            _ => None,
        }
    }

    open spec fn stored(&self, key: Seq<char>) -> Option<ValueExpression> {
        self.lookup(key)
    }

    fn extract(&self, key: &str) -> (r: Option<&Bundle>) {
        match self.get(key) {
            Some(ValueExpression::Bundle(b)) => Some(b),
            _ => None,
        }
    }
}

impl<T> Extract<T> for Manifest where Bundle: Extract<T> {
    open spec fn select(v: ValueExpression) -> Option<T> {
        <Bundle as Extract<T>>::select(v)
    }

    open spec fn stored(&self, key: Seq<char>) -> Option<ValueExpression> {
        <Bundle as Extract<T>>::stored(&self.bundle, key)
    }

    fn extract(&self, key: &str) -> (r: Option<&T>) {
        self.bundle.extract(key)
    }
}

} // verus!
