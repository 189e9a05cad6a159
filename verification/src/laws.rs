//! The laws the parser obeys on whole classes of inputs: which quoted token
//! comes out a `Number`, a `Text`, or a `Path`, and that parsing is a
//! function of the text alone.
use vstd::prelude::*;

use crate::acf::ValueRep;
use crate::grammar::CharClass;
use crate::grammar::MINUS;
use crate::grammar::Parsed;
use crate::grammar::QUOTE;
use crate::grammar::chars_of;
use crate::grammar::digits_value;
use crate::grammar::is_digit_byte;
use crate::grammar::is_path_byte;
use crate::grammar::is_text_byte;
use crate::grammar::lemma_digits_value_shift;
use crate::grammar::lemma_scan_while;
use crate::grammar::scan_while;
use crate::grammar::lemma_scan_while_exact;
use crate::grammar::spec_number;
use crate::grammar::spec_path;
use crate::grammar::spec_text;
use crate::grammar::spec_value;
use crate::grammar::spec_value_complete;
use crate::grammar::spec_vdf;

verus! {

/// The content wrapped in the two quotes that make it a token.
pub open spec fn quoted(d: Seq<u8>) -> Seq<u8> {
    seq![QUOTE] + d + seq![QUOTE]
}

/// A token content the `Number` rule accepts syntactically: a nonempty digit
/// run, optionally after a `-` sign.
pub open spec fn number_shaped(d: Seq<u8>) -> bool {
    ||| (d.len() > 0 && forall|k: int| 0 <= k < d.len() ==> is_digit_byte(d[k]))
    ||| (d.len() > 1 && d[0] == MINUS && forall|k: int| 1 <= k < d.len() ==> is_digit_byte(d[k]))
}

/// The integer a number-shaped token content spells.
pub open spec fn token_value(d: Seq<u8>) -> int {
    if d.len() > 0 && d[0] == MINUS {
        -digits_value(d, 1, d.len() as int)
    } else {
        digits_value(d, 0, d.len() as int)
    }
}

/// How the quotes and the content lie in the quoted token.
proof fn lemma_quoted_structure(d: Seq<u8>)
    ensures
        quoted(d).len() == d.len() + 2,
        quoted(d)[0] == QUOTE,
        forall|k: int| 0 <= k < d.len() ==> quoted(d)[k + 1] == d[k],
        quoted(d)[d.len() + 1int] == QUOTE,
{
    let s = quoted(d);
    assert(s.len() == d.len() + 2);
    assert forall|k: int| 0 <= k < d.len() implies s[k + 1] == d[k] by {
        assert(s[k + 1] == (seq![QUOTE] + d)[k + 1]);
    }
}

/// On a quoted content that holds no quote of its own and is not
/// number-shaped, the `Number` rule backtracks.
proof fn lemma_number_mismatch(d: Seq<u8>)
    requires
        forall|k: int| 0 <= k < d.len() ==> d[k] != QUOTE,
        !number_shaped(d),
    ensures
        spec_number(quoted(d), 0) is Mismatch,
{
    let s = quoted(d);
    let n = d.len() as int;
    lemma_quoted_structure(d);
    let d0: int = if 1 < s.len() && s[1] == MINUS {
        2
    } else {
        1
    };
    let b = scan_while(s, d0, CharClass::Digit);
    lemma_scan_while(s, d0, CharClass::Digit);
    if b > n + 1 {
        assert(is_digit_byte(s[n + 1]));  // the closing quote, which is no digit
        assert(false);
    }
    if b != d0 {
        if b == n + 1 {
            // every content byte from d0 - 1 on is a digit, so the token is
            // number-shaped after all
            assert forall|k: int| d0 - 1 <= k < n implies is_digit_byte(d[k]) by {
                assert(s[k + 1] == d[k]);
                assert(is_digit_byte(s[k + 1]));
            }
            if d0 == 1 {
                assert(number_shaped(d));
            } else {
                assert(d[0] == MINUS);
                assert(d.len() > 1);
                assert(number_shaped(d));
            }
            assert(false);
        }
        assert(s[b] == d[b - 1]);
        assert(s[b] != QUOTE);
    }
}

/// Parsing a quoted, optionally signed, nonempty digit run as a `Value`
/// yields the `Number` it spells, whenever that number fits a 64-bit signed
/// integer.  (A run spelling a larger magnitude aborts with an overflow
/// instead and is excluded here.)
pub proof fn lemma_value_number(d: Seq<u8>)
    requires
        number_shaped(d),
        i64::MIN <= token_value(d) <= i64::MAX,
    ensures
        spec_value_complete(quoted(d)) == Parsed::<ValueRep>::Found(
            ValueRep::Number(token_value(d)),
            d.len() + 2int,
        ),
{
    let s = quoted(d);
    let n = d.len() as int;
    lemma_quoted_structure(d);
    let signed = d[0] == MINUS;
    let d0: int = if signed {
        2
    } else {
        1
    };
    if signed {
        assert(s[1] == MINUS);
    } else {
        assert(s[1] == d[0]);
        assert(is_digit_byte(d[0]));
    }
    assert forall|k: int| d0 <= k < n + 1 implies is_digit_byte(s[k]) by {
        assert(s[k] == d[k - 1]);
    }
    assert(!is_digit_byte(s[n + 1]));
    lemma_scan_while_exact(s, d0, n + 1, CharClass::Digit);
    lemma_digits_value_shift(s, d, 1, d0 - 1, n);
    assert(spec_number(s, 0) == Parsed::Found(token_value(d), n + 2));
    assert(spec_value(s, 0) == Parsed::Found(ValueRep::Number(token_value(d)), n + 2));
}

/// Parsing a quoted run of text characters as a `Value` yields the `Text` it
/// spells — unless the run is a signed or unsigned digit run, which the
/// `Number` rule claims first.
pub proof fn lemma_value_text(d: Seq<u8>)
    requires
        forall|k: int| 0 <= k < d.len() ==> is_text_byte(d[k]),
        !number_shaped(d),
    ensures
        spec_value_complete(quoted(d)) == Parsed::<ValueRep>::Found(
            ValueRep::Text(chars_of(d, 0, d.len() as int)),
            d.len() + 2int,
        ),
{
    let s = quoted(d);
    let n = d.len() as int;
    lemma_quoted_structure(d);
    assert forall|k: int| 0 <= k < d.len() implies d[k] != QUOTE by {
        assert(is_text_byte(d[k]));
    }
    lemma_number_mismatch(d);
    assert forall|k: int| 1 <= k < n + 1 implies is_text_byte(s[k]) by {
        assert(s[k] == d[k - 1]);
    }
    assert(!is_text_byte(s[n + 1]));
    lemma_scan_while_exact(s, 1, n + 1, CharClass::Text);
    assert(spec_text(s, 0) == Some((chars_of(s, 1, n + 1), n + 2)));
    assert(chars_of(s, 1, n + 1) =~= chars_of(d, 0, n));
    assert(spec_value(s, 0) == Parsed::Found(ValueRep::Text(chars_of(d, 0, n)), n + 2));
}

/// Parsing a quoted run of path characters as a `Value` yields the `Path` it
/// spells, provided some character is a path-only one (`.`, `/`, `_`, `+` or
/// `~`): otherwise the run is also plain text, and the `Text` rule, tried
/// first, claims it.
pub proof fn lemma_value_path(d: Seq<u8>)
    requires
        forall|k: int| 0 <= k < d.len() ==> is_path_byte(d[k]),
        exists|m: int| 0 <= m < d.len() && !is_text_byte(d[m]),
    ensures
        spec_value_complete(quoted(d)) == Parsed::<ValueRep>::Found(
            ValueRep::Path(chars_of(d, 0, d.len() as int)),
            d.len() + 2int,
        ),
{
    let s = quoted(d);
    let n = d.len() as int;
    lemma_quoted_structure(d);
    let m = choose|m: int| 0 <= m < d.len() && !is_text_byte(d[m]);
    assert(!is_digit_byte(d[m]));
    assert(d[m] != MINUS);
    assert forall|k: int| 0 <= k < d.len() implies d[k] != QUOTE by {
        assert(is_path_byte(d[k]));
    }
    assert(!number_shaped(d));
    lemma_number_mismatch(d);
    // the identifier alternative stalls at the path-only byte
    let bt = scan_while(s, 1, CharClass::Text);
    lemma_scan_while(s, 1, CharClass::Text);
    if bt > n + 1 {
        assert(is_text_byte(s[n + 1]));
        assert(false);
    }
    if bt == n + 1 {
        assert(is_text_byte(s[m + 1]));
        assert(s[m + 1] == d[m]);
        assert(false);
    }
    assert(s[bt] == d[bt - 1]);
    assert(s[bt] != QUOTE);
    assert(spec_text(s, 0) is None);
    // the path alternative takes the whole token
    assert forall|k: int| 1 <= k < n + 1 implies is_path_byte(s[k]) by {
        assert(s[k] == d[k - 1]);
    }
    assert(!is_path_byte(s[n + 1]));
    lemma_scan_while_exact(s, 1, n + 1, CharClass::Path);
    assert(spec_path(s, 0) == Some((chars_of(s, 1, n + 1), n + 2)));
    assert(chars_of(s, 1, n + 1) =~= chars_of(d, 0, n));
    assert(spec_value(s, 0) == Parsed::Found(ValueRep::Path(chars_of(d, 0, n)), n + 2));
}

/// Parsing is a function of the text alone: two successful outcomes of the
/// manifest rule on one input carry the same identifier, the same entries
/// and the same end position, so re-parsing an input yields an equal tree.
pub proof fn lemma_reparse_same(
    text: Seq<u8>,
    a: (Seq<char>, Seq<(Seq<char>, ValueRep)>),
    pa: int,
    b: (Seq<char>, Seq<(Seq<char>, ValueRep)>),
    pb: int,
)
    requires
        spec_vdf(text) == Parsed::Found(a, pa),
        spec_vdf(text) == Parsed::Found(b, pb),
    ensures
        a == b,
        pa == pb,
{
}

} // verus!
