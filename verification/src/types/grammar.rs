//! The grammar of predicate strings: `[HAS ]<field> <operator> <value>`.
//!
//! The field is as long as it can be: the operator is the last one in the string that
//! stands between two spaces. Neither field nor value holds a line feed. The marker
//! `HAS ` in front makes a predicate on filenames, provided that a predicate is left
//! behind it; else `HAS` is read as part of the field.

use crate::text::{chars_of, matches_at, occurs_at};
use crate::types::query::{PredOp, Predicate, PredicateView};
use vstd::prelude::*;
use vstd::string::StrSliceExecFns;

verus! {

/// The text of an operator.
pub open spec fn op_token(op: PredOp) -> Seq<char> {
    match op {
        PredOp::EQ => seq!['=', '='],
        PredOp::NE => seq!['!', '='],
        PredOp::LT => seq!['<'],
        PredOp::GT => seq!['>'],
        PredOp::LE => seq!['<', '='],
        PredOp::GE => seq!['>', '='],
        PredOp::CONTAINS => seq!['C', 'O', 'N', 'T', 'A', 'I', 'N', 'S'],
    }
}

/// The marker of a predicate on filenames.
pub open spec fn marker() -> Seq<char> {
    seq!['H', 'A', 'S', ' ']
}

/// At position `p` of `s` stand a space, the operator `op` and another space.
pub open spec fn op_at(s: Seq<char>, p: int, op: PredOp) -> bool {
    &&& 0 <= p
    &&& p + op_token(op).len() + 2 <= s.len()
    &&& s[p] == ' '
    &&& occurs_at(s, op_token(op), p + 1)
    &&& s[p + 1 + op_token(op).len()] == ' '
}

/// The operator that stands at position `p` between two spaces, if one does. No two
/// operators can stand at one position, since a space follows the operator.
pub open spec fn op_found(s: Seq<char>, p: int) -> Option<PredOp> {
    if op_at(s, p, PredOp::EQ) {
        Some(PredOp::EQ)
    } else if op_at(s, p, PredOp::NE) {
        Some(PredOp::NE)
    } else if op_at(s, p, PredOp::LT) {
        Some(PredOp::LT)
    } else if op_at(s, p, PredOp::GT) {
        Some(PredOp::GT)
    } else if op_at(s, p, PredOp::LE) {
        Some(PredOp::LE)
    } else if op_at(s, p, PredOp::GE) {
        Some(PredOp::GE)
    } else if op_at(s, p, PredOp::CONTAINS) {
        Some(PredOp::CONTAINS)
    } else {
        None
    }
}

/// The last position behind `start` and up to `p` at which an operator stands, or
/// `start` if there is none.
pub open spec fn last_split(s: Seq<char>, start: int, p: int) -> int
    decreases p - start,
{
    if p <= start {
        start
    } else if op_found(s, p) is Some {
        p
    } else {
        last_split(s, start, p - 1)
    }
}

/// The predicate that `s` holds from `start` on: the field runs up to the last
/// operator, the value from behind it to the end. There is none where no operator
/// stands behind a field of at least one character.
pub open spec fn split_from(s: Seq<char>, start: int) -> Option<PredicateView> {
    let p = last_split(s, start, s.len() as int);
    if p > start {
        let op = op_found(s, p)->0;
        Some(
            PredicateView {
                field: s.subrange(start, p),
                op,
                value: s.subrange(p + 2 + op_token(op).len(), s.len() as int),
            },
        )
    } else {
        None
    }
}

/// A predicate, and whether it speaks of filenames or of rows.
pub struct ParsedPredicate {
    pub on_filename: bool,
    pub predicate: PredicateView,
}

/// Whether `s` begins with the marker.
pub open spec fn has_marker(s: Seq<char>) -> bool {
    occurs_at(s, marker(), 0)
}

/// Whether `s` holds a line feed.
pub open spec fn has_line_feed(s: Seq<char>) -> bool {
    exists|i: int| 0 <= i < s.len() && s[i] == '\n'
}

/// What a predicate string means, or `None` where it does not follow the grammar.
pub open spec fn parse_predicate(s: Seq<char>) -> Option<ParsedPredicate> {
    if has_line_feed(s) {
        None
    } else if has_marker(s) && split_from(s, 4) is Some {
        Some(ParsedPredicate { on_filename: true, predicate: split_from(s, 4)->0 })
    } else if split_from(s, 0) is Some {
        Some(ParsedPredicate { on_filename: false, predicate: split_from(s, 0)->0 })
    } else {
        None
    }
}

/// The string that stands for a predicate.
pub open spec fn unparse(p: ParsedPredicate) -> Seq<char> {
    (if p.on_filename {
        marker()
    } else {
        Seq::empty()
    }) + p.predicate.field + seq![' '] + op_token(p.predicate.op) + seq![' ']
        + p.predicate.value
}

/// `last_split` returns `start` or a position behind it, up to `p`, at which an
/// operator stands and behind which, up to `p`, none does.
pub proof fn lemma_last_split(s: Seq<char>, start: int, p: int)
    ensures
        last_split(s, start, p) == start || (start < last_split(s, start, p) <= p && op_found(
            s,
            last_split(s, start, p),
        ) is Some),
        forall|q: int| last_split(s, start, p) < q <= p && start < q ==> op_found(s, q) is None,
    decreases p - start,
{
    if p > start && op_found(s, p) is None {
        lemma_last_split(s, start, p - 1);
    }
}

/// A string in which `token` stands between two spaces at `p` is, from `start` on,
/// what stands before `p`, a space, the token, a space and the rest.
proof fn lemma_around_token(s: Seq<char>, start: int, p: int, token: Seq<char>)
    requires
        0 <= start <= p,
        p + token.len() + 2 <= s.len(),
        s[p] == ' ',
        occurs_at(s, token, p + 1),
        s[p + 1 + token.len()] == ' ',
    ensures
        s.subrange(start, s.len() as int) == s.subrange(start, p) + seq![' '] + token + seq![' ']
            + s.subrange(p + 2 + token.len(), s.len() as int),
{
    let whole = s.subrange(start, s.len() as int);
    let parts = s.subrange(start, p) + seq![' '] + token + seq![' '] + s.subrange(
        p + 2 + token.len(),
        s.len() as int,
    );
    assert(whole.len() == parts.len());
    assert forall|i: int| 0 <= i < whole.len() implies whole[i] == parts[i] by {
        let at = start + i;
        if at > p && at < p + 1 + token.len() {
            assert(s[p + 1 + (at - p - 1)] == token[at - p - 1]);
        }
    }
    assert(whole =~= parts);
}

/// Writing out what was parsed gives the string back: a string that follows the
/// grammar is the marker, if it speaks of filenames, and after it the field, a space,
/// the operator, a space and the value. So what is parsed from the string written
/// out is the same predicate again. The field is never empty.
pub proof fn lemma_parse_unparse(s: Seq<char>)
    requires
        parse_predicate(s) is Some,
    ensures
        unparse(parse_predicate(s)->0) == s,
        parse_predicate(unparse(parse_predicate(s)->0)) == parse_predicate(s),
        parse_predicate(s)->0.predicate.field.len() > 0,
{
    let parsed = parse_predicate(s)->0;
    let start: int = if parsed.on_filename {
        4
    } else {
        0
    };
    lemma_last_split(s, start, s.len() as int);
    let p = last_split(s, start, s.len() as int);
    let op = op_found(s, p)->0;
    assert(op_at(s, p, op));
    lemma_around_token(s, start, p, op_token(op));
    let tail = s.subrange(start, s.len() as int);
    assert(tail == parsed.predicate.field + seq![' '] + op_token(op) + seq![' ']
        + parsed.predicate.value);
    if parsed.on_filename {
        assert(marker() =~= s.subrange(0, 4)) by {
            assert forall|i: int| 0 <= i < 4 implies marker()[i] == s[0 + i] by {}
        }
        assert(s =~= s.subrange(0, 4) + tail);
        assert(unparse(parsed) =~= marker() + tail);
    } else {
        assert(s =~= tail);
        assert(unparse(parsed) =~= tail);
    }
}

/// The characters of an operator.
fn token_chars(op: PredOp) -> (token: Vec<char>)
    ensures
        token@ == op_token(op),
{
    let token = match op {
        PredOp::EQ => vec!['=', '='],
        PredOp::NE => vec!['!', '='],
        PredOp::LT => vec!['<'],
        PredOp::GT => vec!['>'],
        PredOp::LE => vec!['<', '='],
        PredOp::GE => vec!['>', '='],
        PredOp::CONTAINS => vec!['C', 'O', 'N', 'T', 'A', 'I', 'N', 'S'],
    };
    assert(token@ =~= op_token(op));
    token
}

/// Decides `op_at`.
fn stands_at(chars: &Vec<char>, p: usize, op: PredOp) -> (r: bool)
    ensures
        r == op_at(chars@, p as int, op),
{
    let token = token_chars(op);
    if token.len() + 2 > chars.len() || p > chars.len() - token.len() - 2 {
        return false;
    }
    chars[p] == ' ' && matches_at(chars, &token, p + 1) && chars[p + 1 + token.len()] == ' '
}

/// Computes `op_found`.
fn find_op(chars: &Vec<char>, p: usize) -> (r: Option<PredOp>)
    ensures
        r == op_found(chars@, p as int),
{
    if stands_at(chars, p, PredOp::EQ) {
        Some(PredOp::EQ)
    } else if stands_at(chars, p, PredOp::NE) {
        Some(PredOp::NE)
    } else if stands_at(chars, p, PredOp::LT) {
        Some(PredOp::LT)
    } else if stands_at(chars, p, PredOp::GT) {
        Some(PredOp::GT)
    } else if stands_at(chars, p, PredOp::LE) {
        Some(PredOp::LE)
    } else if stands_at(chars, p, PredOp::GE) {
        Some(PredOp::GE)
    } else if stands_at(chars, p, PredOp::CONTAINS) {
        Some(PredOp::CONTAINS)
    } else {
        None
    }
}

/// Computes `split_from` on the string `s`, whose characters are `chars`.
fn split(s: &str, chars: &Vec<char>, start: usize) -> (r: Option<Predicate>)
    requires
        chars@ == s@,
        start <= chars.len(),
    ensures
        match r {
            Some(p) => split_from(s@, start as int) == Some(p@),
            None => split_from(s@, start as int) is None,
        },
{
    let n: usize = chars.len();
    let mut p: usize = n;
    while p > start
        invariant
            start <= p <= n,
            n == chars.len(),
            chars@ == s@,
            last_split(s@, start as int, n as int) == last_split(s@, start as int, p as int),
        decreases p,
    {
        match find_op(chars, p) {
            Some(op) => {
                let token = token_chars(op);
                assert(op_at(s@, p as int, op));
                let field = s.substring_char(start, p).to_owned();
                let value = s.substring_char(p + 2 + token.len(), n).to_owned();
                return Some(Predicate::new(field, op, value));
            },
            None => {},
        }
        p -= 1;
    }
    None
}

/// Decides `has_line_feed`.
fn holds_line_feed(chars: &Vec<char>) -> (r: bool)
    ensures
        r == has_line_feed(chars@),
{
    let mut i: usize = 0;
    while i < chars.len()
        invariant
            i <= chars.len(),
            forall|j: int| 0 <= j < i ==> chars@[j] != '\n',
        decreases chars.len() - i,
    {
        if chars[i] == '\n' {
            return true;
        }
        i += 1;
    }
    false
}

/// Parses one predicate string. The flag says whether the predicate speaks of
/// filenames.
pub fn parse(s: &str) -> (r: Option<(bool, Predicate)>)
    ensures
        match r {
            Some(found) => parse_predicate(s@) == Some(
                ParsedPredicate { on_filename: found.0, predicate: found.1@ },
            ),
            None => parse_predicate(s@) is None,
        },
{
    let chars = chars_of(s);
    if holds_line_feed(&chars) {
        return None;
    }
    let mark: Vec<char> = vec!['H', 'A', 'S', ' '];
    assert(mark@ =~= marker());
    if chars.len() >= 4 && matches_at(&chars, &mark, 0) {
        match split(s, &chars, 4) {
            Some(predicate) => {
                return Some((true, predicate));
            },
            None => {},
        }
    }
    match split(s, &chars, 0) {
        Some(predicate) => Some((false, predicate)),
        None => None,
    }
}

} // verus!
