//! Character-level string utilities shared by the name synthesizer, the type
//! resolver and the emitter: single-character replacement and removal,
//! prefix stripping, splitting and joining, end-trimming, ASCII lowercasing,
//! and a lexicographic order on character sequences.

use vstd::prelude::*;
use vstd::string::*;

verus! {

/// Relies on `String::push`: appends the given character to the end of the
/// string's character sequence.
#[verifier::external_body]
pub(crate) fn push_char(s: &mut String, c: char)
    ensures
        final(s)@ == old(s)@.push(c),
{
    s.push(c);
}

/// Every character equal to `from` replaced by `to`; all others kept.
pub open spec fn replace_char_spec(s: Seq<char>, from: char, to: char) -> Seq<char> {
    s.map_values(|c: char| if c == from { to } else { c })
}

pub fn replace_char(s: &str, from: char, to: char) -> (r: String)
    ensures
        r@ == replace_char_spec(s@, from, to),
{
    let n = s.unicode_len();
    let mut r = String::new();
    let mut i: usize = 0;
    while i < n
        invariant
            n == s@.len(),
            i <= n,
            r@ == replace_char_spec(s@.take(i as int), from, to),
        decreases n - i,
    {
        let c = s.get_char(i);
        if c == from {
            push_char(&mut r, to);
        } else {
            push_char(&mut r, c);
        }
        proof {
            assert(s@.take(i + 1) =~= s@.take(i as int).push(s@[i as int]));
            assert(replace_char_spec(s@.take(i + 1), from, to) =~= replace_char_spec(
                s@.take(i as int),
                from,
                to,
            ).push(if s@[i as int] == from {
                to
            } else {
                s@[i as int]
            }));
        }
        i = i + 1;
    }
    proof {
        assert(s@.take(n as int) =~= s@);
    }
    r
}

/// Every character equal to `cut` removed; all others kept in order.
pub open spec fn remove_char_spec(s: Seq<char>, cut: char) -> Seq<char>
    decreases s.len(),
{
    if s.len() == 0 {
        s
    } else if s.last() == cut {
        remove_char_spec(s.drop_last(), cut)
    } else {
        remove_char_spec(s.drop_last(), cut).push(s.last())
    }
}

pub fn remove_char(s: &str, cut: char) -> (r: String)
    ensures
        r@ == remove_char_spec(s@, cut),
{
    let n = s.unicode_len();
    let mut r = String::new();
    let mut i: usize = 0;
    while i < n
        invariant
            n == s@.len(),
            i <= n,
            r@ == remove_char_spec(s@.take(i as int), cut),
        decreases n - i,
    {
        let c = s.get_char(i);
        if c != cut {
            push_char(&mut r, c);
        }
        proof {
            assert(s@.take(i + 1).last() == s@[i as int]);
            assert(s@.take(i + 1).drop_last() =~= s@.take(i as int));
        }
        i = i + 1;
    }
    proof {
        assert(s@.take(n as int) =~= s@);
    }
    r
}

/// The sequence with one leading occurrence of the marker `m` removed,
/// when `s` begins with it; otherwise `s` unchanged.
pub open spec fn strip_prefix_spec(s: Seq<char>, m: Seq<char>) -> Seq<char> {
    if s.len() >= m.len() && s.take(m.len() as int) == m {
        s.skip(m.len() as int)
    } else {
        s
    }
}

/// True when the characters of `m` occur in `s` starting at position `i`.
fn matches_at(s: &str, m: &str, i: usize, ml: usize) -> (b: bool)
    requires
        ml == m@.len(),
        i + ml <= s@.len(),
        s@.len() <= usize::MAX,
    ensures
        b == (s@.subrange(i as int, i + ml) == m@),
{
    let mut j: usize = 0;
    while j < ml
        invariant
            ml == m@.len(),
            i + ml <= s@.len(),
            s@.len() <= usize::MAX,
            j <= ml,
            forall|k: int| 0 <= k < j ==> s@[i + k] == m@[k],
        decreases ml - j,
    {
        if s.get_char(i + j) != m.get_char(j) {
            proof {
                assert(s@.subrange(i as int, i + ml)[j as int] == s@[i + j]);
            }
            return false;
        }
        j = j + 1;
    }
    proof {
        assert(s@.subrange(i as int, i + ml) =~= m@);
    }
    true
}

pub fn strip_prefix(s: &str, m: &str) -> (r: String)
    ensures
        r@ == strip_prefix_spec(s@, m@),
{
    let n = s.unicode_len();
    let ml = m.unicode_len();
    if ml <= n {
        let matched = matches_at(s, m, 0, ml);
        if matched {
            proof {
                assert(s@.subrange(0, ml as int) =~= s@.take(ml as int));
            }
            let t = s.substring_char(ml, n);
            proof {
                assert(t@ =~= s@.skip(ml as int));
            }
            return String::from_str(t);
        }
        proof {
            assert(s@.subrange(0, ml as int) =~= s@.take(ml as int));
        }
    }
    String::from_str(s)
}

/// The pieces of `s` between occurrences of the separator, in order; a
/// sequence with no separator is one piece, and adjacent separators enclose
/// an empty piece.
pub open spec fn split_char_spec(s: Seq<char>, sep: char) -> Seq<Seq<char>>
    decreases s.len(),
{
    if s.len() == 0 {
        seq![Seq::<char>::empty()]
    } else if s[0] == sep {
        seq![Seq::<char>::empty()] + split_char_spec(s.drop_first(), sep)
    } else {
        let rest = split_char_spec(s.drop_first(), sep);
        seq![seq![s[0]] + rest[0]] + rest.drop_first()
    }
}

pub proof fn lemma_split_char_len(s: Seq<char>, sep: char)
    ensures
        split_char_spec(s, sep).len() >= 1,
    decreases s.len(),
{
    if s.len() > 0 {
        lemma_split_char_len(s.drop_first(), sep);
    }
}

/// The first piece of `ss` extended on the left with `x`; the rest unchanged.
pub open spec fn prepend_first(x: Seq<char>, ss: Seq<Seq<char>>) -> Seq<Seq<char>> {
    seq![x + ss[0]] + ss.drop_first()
}

pub fn split_char(s: &str, sep: char) -> (r: Vec<String>)
    ensures
        r.deep_view() == split_char_spec(s@, sep),
{
    let n = s.unicode_len();
    let mut pieces: Vec<String> = Vec::new();
    let mut cur = String::new();
    let mut i: usize = 0;
    proof {
        lemma_split_char_len(s@, sep);
        assert(s@.skip(0) =~= s@);
        assert(prepend_first(cur@, split_char_spec(s@, sep)) =~~= split_char_spec(s@, sep));
    }
    while i < n
        invariant
            n == s@.len(),
            i <= n,
            split_char_spec(s@, sep) == pieces.deep_view() + prepend_first(
                cur@,
                split_char_spec(s@.skip(i as int), sep),
            ),
        decreases n - i,
    {
        let c = s.get_char(i);
        proof {
            assert(s@.skip(i as int).drop_first() =~= s@.skip(i + 1));
            assert(s@.skip(i as int)[0] == s@[i as int]);
            lemma_split_char_len(s@.skip(i + 1), sep);
        }
        if c == sep {
            let done = cur;
            cur = String::new();
            let ghost old_pieces = pieces.deep_view();
            pieces.push(done);
            proof {
                assert(pieces.deep_view() =~~= old_pieces.push(done@));
                assert(prepend_first(done@, split_char_spec(s@.skip(i as int), sep)) =~~= seq![
                    done@,
                ] + prepend_first(cur@, split_char_spec(s@.skip(i + 1), sep)));
                assert(old_pieces.push(done@) + prepend_first(
                    cur@,
                    split_char_spec(s@.skip(i + 1), sep),
                ) =~~= old_pieces + (seq![done@] + prepend_first(
                    cur@,
                    split_char_spec(s@.skip(i + 1), sep),
                )));
            }
        } else {
            let ghost old_cur = cur@;
            push_char(&mut cur, c);
            proof {
                assert(prepend_first(old_cur, split_char_spec(s@.skip(i as int), sep)) =~~= prepend_first(
                    cur@,
                    split_char_spec(s@.skip(i + 1), sep),
                ));
            }
        }
        i = i + 1;
    }
    proof {
        assert(s@.skip(n as int) =~= Seq::<char>::empty());
    }
    let ghost old_pieces = pieces.deep_view();
    pieces.push(cur);
    proof {
        assert(pieces.deep_view() =~~= old_pieces.push(cur@));
        assert(prepend_first(cur@, split_char_spec(Seq::<char>::empty(), sep)) =~~= seq![cur@]);
        assert(old_pieces + seq![cur@] =~~= old_pieces.push(cur@));
    }
    pieces
}

/// The pieces concatenated in order with `sep` between consecutive pieces.
pub open spec fn join_with_spec(pieces: Seq<Seq<char>>, sep: Seq<char>) -> Seq<char>
    decreases pieces.len(),
{
    if pieces.len() == 0 {
        Seq::<char>::empty()
    } else if pieces.len() == 1 {
        pieces[0]
    } else {
        pieces[0] + sep + join_with_spec(pieces.drop_first(), sep)
    }
}

pub proof fn lemma_join_with_push(pieces: Seq<Seq<char>>, x: Seq<char>, sep: Seq<char>)
    ensures
        join_with_spec(pieces.push(x), sep) == (if pieces.len() == 0 {
            x
        } else {
            join_with_spec(pieces, sep) + sep + x
        }),
    decreases pieces.len(),
{
    if pieces.len() == 0 {
        assert(pieces.push(x).len() == 1);
        assert(pieces.push(x)[0] == x);
    } else if pieces.len() == 1 {
        assert(pieces.push(x).drop_first() =~= seq![x]);
        assert(pieces.push(x)[0] == pieces[0]);
        assert(join_with_spec(seq![x], sep) == x);
    } else {
        assert(pieces.push(x).drop_first() =~= pieces.drop_first().push(x));
        lemma_join_with_push(pieces.drop_first(), x, sep);
        assert(pieces.push(x)[0] == pieces[0]);
        assert(pieces[0] + sep + (join_with_spec(pieces.drop_first(), sep) + sep + x) =~= (
        pieces[0] + sep + join_with_spec(pieces.drop_first(), sep)) + sep + x);
    }
}

pub fn join_with(pieces: &Vec<String>, sep: &str) -> (r: String)
    ensures
        r@ == join_with_spec(pieces.deep_view(), sep@),
{
    let mut r = String::new();
    let mut i: usize = 0;
    proof {
        assert(pieces.deep_view().take(0) =~= Seq::<Seq<char>>::empty());
    }
    while i < pieces.len()
        invariant
            i <= pieces.len(),
            pieces.deep_view().len() == pieces.len(),
            r@ == join_with_spec(pieces.deep_view().take(i as int), sep@),
        decreases pieces.len() - i,
    {
        if i > 0 {
            r.append(sep);
        }
        r.append(pieces[i].as_str());
        proof {
            assert(pieces.deep_view().take(i + 1) =~= pieces.deep_view().take(i as int).push(
                pieces.deep_view()[i as int],
            ));
            lemma_join_with_push(pieces.deep_view().take(i as int), pieces.deep_view()[i as int], sep@);
        }
        i = i + 1;
    }
    proof {
        assert(pieces.deep_view().take(pieces.deep_view().len() as int) =~= pieces.deep_view());
    }
    r
}

/// The sequence with every trailing occurrence of `cut` removed.
pub open spec fn trim_end_char_spec(s: Seq<char>, cut: char) -> Seq<char>
    decreases s.len(),
{
    if s.len() > 0 && s.last() == cut {
        trim_end_char_spec(s.drop_last(), cut)
    } else {
        s
    }
}

pub fn trim_end_char(s: &str, cut: char) -> (r: String)
    ensures
        r@ == trim_end_char_spec(s@, cut),
{
    let n = s.unicode_len();
    let mut j: usize = n;
    proof {
        assert(s@.take(n as int) =~= s@);
    }
    while j > 0 && s.get_char(j - 1) == cut
        invariant
            n == s@.len(),
            j <= n,
            trim_end_char_spec(s@, cut) == trim_end_char_spec(s@.take(j as int), cut),
        decreases j,
    {
        proof {
            assert(s@.take(j as int).last() == s@[j - 1]);
            assert(s@.take(j as int).drop_last() =~= s@.take(j - 1));
        }
        j = j - 1;
    }
    proof {
        if j > 0 {
            assert(s@.take(j as int).last() == s@[j - 1]);
        }
        assert(trim_end_char_spec(s@.take(j as int), cut) == s@.take(j as int));
    }
    let t = s.substring_char(0, j);
    proof {
        assert(t@ =~= s@.take(j as int));
    }
    String::from_str(t)
}

/// An upper-case ASCII letter replaced by its lower-case form; any other
/// character unchanged.
pub open spec fn lower_char_spec(c: char) -> char {
    if c == 'A' {
        'a'
    } else if c == 'B' {
        'b'
    } else if c == 'C' {
        'c'
    } else if c == 'D' {
        'd'
    } else if c == 'E' {
        'e'
    } else if c == 'F' {
        'f'
    } else if c == 'G' {
        'g'
    } else if c == 'H' {
        'h'
    } else if c == 'I' {
        'i'
    } else if c == 'J' {
        'j'
    } else if c == 'K' {
        'k'
    } else if c == 'L' {
        'l'
    } else if c == 'M' {
        'm'
    } else if c == 'N' {
        'n'
    } else if c == 'O' {
        'o'
    } else if c == 'P' {
        'p'
    } else if c == 'Q' {
        'q'
    } else if c == 'R' {
        'r'
    } else if c == 'S' {
        's'
    } else if c == 'T' {
        't'
    } else if c == 'U' {
        'u'
    } else if c == 'V' {
        'v'
    } else if c == 'W' {
        'w'
    } else if c == 'X' {
        'x'
    } else if c == 'Y' {
        'y'
    } else if c == 'Z' {
        'z'
    } else {
        c
    }
}

/// Every upper-case ASCII letter of `s` replaced by its lower-case form.
pub open spec fn lower_spec(s: Seq<char>) -> Seq<char> {
    s.map_values(|c: char| lower_char_spec(c))
}

fn lower_char(c: char) -> (r: char)
    ensures
        r == lower_char_spec(c),
{
    match c {
        'A' => 'a',
        'B' => 'b',
        'C' => 'c',
        'D' => 'd',
        'E' => 'e',
        'F' => 'f',
        'G' => 'g',
        'H' => 'h',
        'I' => 'i',
        'J' => 'j',
        'K' => 'k',
        'L' => 'l',
        'M' => 'm',
        'N' => 'n',
        'O' => 'o',
        'P' => 'p',
        'Q' => 'q',
        'R' => 'r',
        'S' => 's',
        'T' => 't',
        'U' => 'u',
        'V' => 'v',
        'W' => 'w',
        'X' => 'x',
        'Y' => 'y',
        'Z' => 'z',
        _ => c,
    }
}

pub fn to_lower(s: &str) -> (r: String)
    ensures
        r@ == lower_spec(s@),
{
    let n = s.unicode_len();
    let mut r = String::new();
    let mut i: usize = 0;
    while i < n
        invariant
            n == s@.len(),
            i <= n,
            r@ == lower_spec(s@.take(i as int)),
        decreases n - i,
    {
        let c = lower_char(s.get_char(i));
        push_char(&mut r, c);
        proof {
            assert(s@.take(i + 1) =~= s@.take(i as int).push(s@[i as int]));
            assert(lower_spec(s@.take(i + 1)) =~= lower_spec(s@.take(i as int)).push(
                lower_char_spec(s@[i as int]),
            ));
        }
        i = i + 1;
    }
    proof {
        assert(s@.take(n as int) =~= s@);
    }
    r
}

/// Lexicographic order by character code: `a` is less than or equal to `b`
/// when `a` is a prefix of `b` or the first differing character of `a` has
/// the smaller code.
pub open spec fn lex_le_spec(a: Seq<char>, b: Seq<char>) -> bool
    decreases a.len(),
{
    if a.len() == 0 {
        true
    } else if b.len() == 0 {
        false
    } else if a[0] < b[0] {
        true
    } else if b[0] < a[0] {
        false
    } else {
        lex_le_spec(a.drop_first(), b.drop_first())
    }
}

pub proof fn lemma_lex_le_reflexive(a: Seq<char>)
    ensures
        lex_le_spec(a, a),
    decreases a.len(),
{
    if a.len() > 0 {
        lemma_lex_le_reflexive(a.drop_first());
    }
}

pub proof fn lemma_lex_le_total(a: Seq<char>, b: Seq<char>)
    ensures
        lex_le_spec(a, b) || lex_le_spec(b, a),
    decreases a.len(),
{
    if a.len() > 0 && b.len() > 0 && a[0] == b[0] {
        lemma_lex_le_total(a.drop_first(), b.drop_first());
    }
}

pub proof fn lemma_lex_le_transitive(a: Seq<char>, b: Seq<char>, c: Seq<char>)
    requires
        lex_le_spec(a, b),
        lex_le_spec(b, c),
    ensures
        lex_le_spec(a, c),
    decreases a.len(),
{
    if a.len() > 0 && b.len() > 0 && c.len() > 0 && a[0] == b[0] && b[0] == c[0] {
        lemma_lex_le_transitive(a.drop_first(), b.drop_first(), c.drop_first());
    }
}

pub fn str_lex_le(a: &str, b: &str) -> (r: bool)
    ensures
        r == lex_le_spec(a@, b@),
{
    let an = a.unicode_len();
    let bn = b.unicode_len();
    let mut i: usize = 0;
    proof {
        assert(a@.skip(0) =~= a@);
        assert(b@.skip(0) =~= b@);
    }
    loop
        invariant
            an == a@.len(),
            bn == b@.len(),
            i <= an,
            i <= bn,
            lex_le_spec(a@, b@) == lex_le_spec(a@.skip(i as int), b@.skip(i as int)),
        decreases an - i,
    {
        if i >= an {
            return true;
        }
        if i >= bn {
            return false;
        }
        let ca = a.get_char(i);
        let cb = b.get_char(i);
        if ca < cb {
            return true;
        }
        if cb < ca {
            return false;
        }
        proof {
            assert(a@.skip(i as int).drop_first() =~= a@.skip(i + 1));
            assert(b@.skip(i as int).drop_first() =~= b@.skip(i + 1));
        }
        i = i + 1;
    }
}

/// True when the two string slices hold the same character sequence.
pub fn str_eq(a: &str, b: &str) -> (r: bool)
    ensures
        r == (a@ == b@),
{
    let an = a.unicode_len();
    let bn = b.unicode_len();
    if an != bn {
        return false;
    }
    let r = matches_at(a, b, 0, bn);
    proof {
        assert(a@.subrange(0, bn as int) =~= a@);
    }
    r
}

/// True when some element of `v` views to the same character sequence as `x`.
pub fn vec_contains_string(v: &Vec<String>, x: &String) -> (b: bool)
    ensures
        b == v.deep_view().contains(x@),
{
    let mut i: usize = 0;
    while i < v.len()
        invariant
            i <= v.len(),
            v.deep_view().len() == v.len(),
            forall|k: int| 0 <= k < i ==> v.deep_view()[k] != x@,
        decreases v.len() - i,
    {
        if v[i].eq(x) {
            proof {
                assert(v.deep_view()[i as int] == x@);
            }
            return true;
        }
        i = i + 1;
    }
    proof {
        assert(forall|k: int| 0 <= k < v.deep_view().len() ==> v.deep_view()[k] != x@);
    }
    false
}

} // verus!
