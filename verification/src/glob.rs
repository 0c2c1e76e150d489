//! The `GLOB` operator of SQLite, by which policies name the paths and
//! processes they cover.
//!
//! `*` stands for any run of characters, `?` for one character, and
//! `[...]` for one character of a class: a leading `^` inverts the class, a
//! `]` right after the opening (or after the `^`) is a member, and `a-z`
//! is a range unless the `-` comes first or last. A class with no closing
//! `]` matches nothing. Every other character stands for itself, with case.
//! Both texts end at their first NUL character, as SQLite reads them.
use vstd::prelude::*;
use crate::text::{chars_of, code_point};

verus! {

/// The text as SQLite reads it: the characters before the first NUL.
pub open spec fn c_text(s: Seq<char>) -> Seq<char>
    decreases s.len(),
{
    if s.len() == 0 || s[0] == '\0' {
        Seq::empty()
    } else {
        seq![s[0]] + c_text(s.drop_first())
    }
}

/// Whether the items of a class start with a range `prior-q[1]`.
pub open spec fn starts_range(q: Seq<char>, prior: int) -> bool {
    q.len() >= 2 && q[0] == '-' && q[1] != ']' && prior > 0
}

/// How many characters the items of a class take, the closing `]` included;
/// `None` when no `]` closes them.
pub open spec fn items_end(q: Seq<char>, prior: int) -> Option<int>
    decreases q.len(),
{
    if q.len() == 0 {
        None
    } else if q[0] == ']' {
        Some(1)
    } else if starts_range(q, prior) {
        match items_end(q.skip(2), 0) {
            Some(k) => Some(k + 2),
            None => None,
        }
    } else {
        match items_end(q.drop_first(), q[0] as int) {
            Some(k) => Some(k + 1),
            None => None,
        }
    }
}

/// Whether `c` is one of the items (single characters or ranges) of a class.
pub open spec fn items_hold(q: Seq<char>, prior: int, c: char) -> bool
    decreases q.len(),
{
    if q.len() == 0 || q[0] == ']' {
        false
    } else if starts_range(q, prior) {
        (prior <= c as int && c as int <= q[1] as int) || items_hold(q.skip(2), 0, c)
    } else {
        c == q[0] || items_hold(q.drop_first(), q[0] as int, c)
    }
}

/// Whether a class (the pattern after its `[`) is inverted by `^`.
pub open spec fn class_inverted(p: Seq<char>) -> bool {
    p.len() > 0 && p[0] == '^'
}

/// The class after its `^`, if any.
pub open spec fn class_body(p: Seq<char>) -> Seq<char> {
    if class_inverted(p) {
        p.drop_first()
    } else {
        p
    }
}

/// Whether the class names `]` as its first member.
pub open spec fn class_leading_close(p: Seq<char>) -> bool {
    class_body(p).len() > 0 && class_body(p)[0] == ']'
}

/// The items of the class, after `^` and a leading `]`.
pub open spec fn class_items(p: Seq<char>) -> Seq<char> {
    if class_leading_close(p) {
        class_body(p).drop_first()
    } else {
        class_body(p)
    }
}

/// How many characters the class takes after its `[`, closing `]` included.
pub open spec fn class_end(p: Seq<char>) -> Option<int> {
    match items_end(class_items(p), 0) {
        Some(k) => Some(
            k + (if class_inverted(p) { 1int } else { 0int }) + (if class_leading_close(p) {
                1int
            } else {
                0int
            }),
        ),
        None => None,
    }
}

/// Whether the class (the pattern after its `[`) accepts `c`.
pub open spec fn class_accepts(p: Seq<char>, c: char) -> bool {
    ((class_leading_close(p) && c == ']') || items_hold(class_items(p), 0, c)) != class_inverted(p)
}

pub proof fn lemma_items_end_bound(q: Seq<char>, prior: int)
    ensures
        items_end(q, prior) matches Some(k) ==> 1 <= k <= q.len(),
    decreases q.len(),
{
    if q.len() > 0 && q[0] != ']' {
        if starts_range(q, prior) {
            lemma_items_end_bound(q.skip(2), 0);
        } else {
            lemma_items_end_bound(q.drop_first(), q[0] as int);
        }
    }
}

pub proof fn lemma_class_end_bound(p: Seq<char>)
    ensures
        class_end(p) matches Some(k) ==> 1 <= k <= p.len(),
{
    lemma_items_end_bound(class_items(p), 0);
}

/// Whether the text matches the pattern, both read up to their first NUL.
pub open spec fn glob_matches(p: Seq<char>, s: Seq<char>) -> bool
    decreases p.len(), s.len(),
{
    if p.len() == 0 {
        s.len() == 0
    } else if p[0] == '*' {
        glob_matches(p.drop_first(), s) || (s.len() > 0 && glob_matches(p, s.drop_first()))
    } else if s.len() == 0 {
        false
    } else if p[0] == '?' {
        glob_matches(p.drop_first(), s.drop_first())
    } else if p[0] == '[' {
        match class_end(p.drop_first()) {
            Some(k) => {
                proof {
                    lemma_class_end_bound(p.drop_first());
                }
                class_accepts(p.drop_first(), s[0]) && glob_matches(p.skip(1 + k), s.drop_first())
            },
            None => false,
        }
    } else {
        p[0] == s[0] && glob_matches(p.drop_first(), s.drop_first())
    }
}

/// Whether a pattern has no wildcard: no `*`, `?` or `[`.
pub open spec fn literal_pattern(p: Seq<char>) -> bool {
    forall|i: int| 0 <= i < p.len() ==> #[trigger] p[i] != '*' && p[i] != '?' && p[i] != '['
}

/// Whether a text has no NUL character.
pub open spec fn nul_free(s: Seq<char>) -> bool {
    forall|i: int| 0 <= i < s.len() ==> #[trigger] s[i] != '\0'
}

/// A pattern without wildcards matches exactly the text it spells.
pub proof fn law_glob_literal(p: Seq<char>, s: Seq<char>)
    requires
        literal_pattern(p),
    ensures
        glob_matches(p, s) <==> s == p,
    decreases p.len(),
{
    if p.len() > 0 {
        assert(p[0] != '*' && p[0] != '?' && p[0] != '[');
        let q = p.drop_first();
        assert forall|i: int| 0 <= i < q.len() implies #[trigger] q[i] != '*' && q[i] != '?' && q[i] != '[' by {
            assert(q[i] == p[i + 1]);
        }
        if s.len() > 0 {
            law_glob_literal(q, s.drop_first());
            if s[0] == p[0] && s.drop_first() == q {
                assert(s == seq![s[0]] + s.drop_first());
                assert(p == seq![p[0]] + q);
            }
        }
    } else {
        if s.len() == 0 {
            assert(s == p);
        }
    }
}

/// A `*` stands for any run of characters: `s` matches `*` followed by `q`
/// exactly when some suffix of `s` (all of it, or none of it, included)
/// matches `q`.
pub proof fn law_glob_star(q: Seq<char>, s: Seq<char>)
    ensures
        glob_matches(seq!['*'] + q, s) <==> exists|k: int| 0 <= k <= s.len() && #[trigger] glob_matches(q, s.skip(k)),
    decreases s.len(),
{
    let p = seq!['*'] + q;
    assert(p[0] == '*');
    assert(p.drop_first() == q);
    assert(s.skip(0) == s);
    assert(glob_matches(p, s) == (glob_matches(q, s) || (s.len() > 0 && glob_matches(p, s.drop_first()))));
    if glob_matches(q, s) {
        assert(glob_matches(q, s.skip(0)));
    }
    if s.len() > 0 {
        let t = s.drop_first();
        law_glob_star(q, t);
        if glob_matches(p, t) {
            let k = choose|k: int| 0 <= k <= t.len() && #[trigger] glob_matches(q, t.skip(k));
            assert(t.skip(k) == s.skip(k + 1));
            assert(glob_matches(q, s.skip(k + 1)));
        }
        if exists|k: int| 0 <= k <= s.len() && #[trigger] glob_matches(q, s.skip(k)) {
            let k = choose|k: int| 0 <= k <= s.len() && #[trigger] glob_matches(q, s.skip(k));
            if k > 0 {
                assert(t.skip(k - 1) == s.skip(k));
                assert(glob_matches(q, t.skip(k - 1)));
            }
        }
    }
}

/// `*` followed by a literal tail matches every text that ends with that
/// tail, whatever comes before it: `u + v GLOB '*' + v`.
pub proof fn law_glob_star_suffix(u: Seq<char>, v: Seq<char>)
    requires
        literal_pattern(v),
    ensures
        glob_matches(seq!['*'] + v, u + v),
{
    law_glob_literal(v, v);
    assert((u + v).skip(u.len() as int) == v);
    law_glob_star(v, u + v);
}

/// The same, for `glob` on texts without NUL characters.
pub proof fn law_spec_glob_star_suffix(u: Seq<char>, v: Seq<char>)
    requires
        literal_pattern(v),
        nul_free(u),
        nul_free(v),
    ensures
        spec_glob(seq!['*'] + v, u + v),
{
    lemma_c_text_nul_free(seq!['*'] + v);
    lemma_c_text_nul_free(u + v);
    law_glob_star_suffix(u, v);
}

/// A text without NUL characters is read whole.
pub proof fn lemma_c_text_nul_free(s: Seq<char>)
    ensures
        (forall|i: int| 0 <= i < s.len() ==> s[i] != '\0') ==> c_text(s) == s,
    decreases s.len(),
{
    if s.len() > 0 && (forall|i: int| 0 <= i < s.len() ==> s[i] != '\0') {
        let t = s.drop_first();
        assert forall|i: int| 0 <= i < t.len() implies t[i] != '\0' by {
            assert(t[i] == s[i + 1]);
        }
        lemma_c_text_nul_free(t);
        assert(s == seq![s[0]] + t);
    }
}

/// Whether `text GLOB pattern` holds.
pub open spec fn spec_glob(pattern: Seq<char>, text: Seq<char>) -> bool {
    glob_matches(c_text(pattern), c_text(text))
}

pub open spec fn shift(k: Option<int>, d: int) -> Option<int> {
    match k {
        Some(k) => Some(k + d),
        None => None,
    }
}

/// Reads one class starting right after its `[` at `start`: where the
/// pattern continues after the class, and whether the class accepts `c`.
fn read_class(p: &Vec<char>, start: usize, c: char) -> (r: Option<(usize, bool)>)
    requires
        start <= p.len(),
    ensures
        match class_end(p@.skip(start as int)) {
            None => r is None,
            Some(k) => r == Some(((start + k) as usize, class_accepts(p@.skip(start as int), c))),
        },
{
    let n = p.len();
    let ghost whole = p@.skip(start as int);
    let mut i = start;
    let mut invert = false;
    if i < n && p[i] == '^' {
        invert = true;
        i += 1;
        assert(class_body(whole) == p@.skip(i as int));
    } else {
        assert(class_body(whole) == p@.skip(i as int));
    }
    let mut seen = false;
    let ghost lead = false;
    if i < n && p[i] == ']' {
        seen = c == ']';
        proof {
            lead = true;
        }
        i += 1;
    }
    assert(lead == class_leading_close(whole));
    assert(class_items(whole) == p@.skip(i as int));
    let items_start = i;
    let mut prior: u32 = 0;
    while i < n && p[i] != ']'
        invariant
            items_start <= i <= n,
            n == p.len(),
            items_end(p@.skip(items_start as int), 0) == shift(
                items_end(p@.skip(i as int), prior as int),
                i - items_start,
            ),
            ((lead && c == ']') || items_hold(p@.skip(items_start as int), 0, c)) == (seen
                || items_hold(p@.skip(i as int), prior as int, c)),
        decreases n - i,
    {
        let ghost q = p@.skip(i as int);
        let ghost old_prior = prior as int;
        assert(q[0] == p@[i as int]);
        if p[i] == '-' && i + 1 < n && p[i + 1] != ']' && prior > 0 {
            assert(q[1] == p@[i + 1]);
            assert(starts_range(q, old_prior));
            let hi = code_point(p[i + 1]);
            let cv = code_point(c);
            assert(hi as int == q[1] as int);
            assert(cv as int == c as int);
            if prior <= cv && cv <= hi {
                seen = true;
            }
            prior = 0;
            assert(q.skip(2) == p@.skip(i + 2));
            assert(items_end(q, old_prior) == shift(items_end(p@.skip(i + 2), 0), 2));
            assert(items_hold(q, old_prior, c) == ((old_prior <= c as int && c as int <= q[1] as int) || items_hold(p@.skip(i + 2), 0, c)));
            i += 2;
        } else {
            assert(!starts_range(q, old_prior));
            if c == p[i] {
                seen = true;
            }
            prior = code_point(p[i]);
            assert(prior as int == q[0] as int);
            assert(q.drop_first() == p@.skip(i + 1));
            assert(items_end(q, old_prior) == shift(items_end(p@.skip(i + 1), q[0] as int), 1));
            i += 1;
        }
    }
    if i >= n {
        assert(p@.skip(i as int).len() == 0);
        None
    } else {
        assert(p@.skip(i as int)[0] == ']');
        Some((i + 1, seen != invert))
    }
}

/// Whether the rest of the text, from `si`, matches the rest of the pattern, from `pi`.
fn glob_from(p: &Vec<char>, pi: usize, s: &Vec<char>, si: usize) -> (r: bool)
    requires
        pi <= p.len(),
        si <= s.len(),
    ensures
        r == glob_matches(p@.skip(pi as int), s@.skip(si as int)),
    decreases p.len() - pi, s.len() - si,
{
    let ghost ps = p@.skip(pi as int);
    let ghost ss = s@.skip(si as int);
    if pi == p.len() {
        return si == s.len();
    }
    assert(ps[0] == p@[pi as int]);
    assert(ps.drop_first() == p@.skip(pi + 1));
    let pc = p[pi];
    if pc == '*' {
        if glob_from(p, pi + 1, s, si) {
            return true;
        }
        if si < s.len() {
            assert(ss.drop_first() == s@.skip(si + 1));
            return glob_from(p, pi, s, si + 1);
        }
        return false;
    }
    if si == s.len() {
        return false;
    }
    assert(ss[0] == s@[si as int]);
    assert(ss.drop_first() == s@.skip(si + 1));
    if pc == '?' {
        glob_from(p, pi + 1, s, si + 1)
    } else if pc == '[' {
        match read_class(p, pi + 1, s[si]) {
            None => false,
            Some((next, accepted)) => {
                proof {
                    lemma_class_end_bound(p@.skip(pi + 1));
                    let k = class_end(p@.skip(pi + 1))->0;
                    assert(ps.skip(1 + k) == p@.skip(next as int));
                }
                accepted && glob_from(p, next, s, si + 1)
            },
        }
    } else {
        pc == s[si] && glob_from(p, pi + 1, s, si + 1)
    }
}

/// The characters before the first NUL.
fn before_nul(v: Vec<char>) -> (r: Vec<char>)
    ensures
        r@ == c_text(v@),
{
    let mut r: Vec<char> = Vec::new();
    let mut i: usize = 0;
    assert(v@.skip(0) == v@);
    assert(r@ + c_text(v@) == c_text(v@));
    while i < v.len() && v[i] != '\0'
        invariant
            i <= v.len(),
            r@ == v@.take(i as int),
            c_text(v@) == r@ + c_text(v@.skip(i as int)),
        decreases v.len() - i,
    {
        let ghost rest = v@.skip(i as int);
        assert(rest[0] == v@[i as int]);
        assert(rest.drop_first() == v@.skip(i + 1));
        assert(c_text(rest) == seq![v@[i as int]] + c_text(v@.skip(i + 1)));
        r.push(v[i]);
        assert(v@.take(i + 1) == v@.take(i as int).push(v@[i as int]));
        assert(r@ + c_text(v@.skip(i + 1)) == v@.take(i as int) + (seq![v@[i as int]] + c_text(
            v@.skip(i + 1),
        )));
        i += 1;
    }
    assert(c_text(v@.skip(i as int)) == Seq::<char>::empty());
    assert(r@ + Seq::<char>::empty() == r@);
    r
}

/// Whether `text GLOB pattern` holds in SQLite.
pub fn glob(pattern: &str, text: &str) -> (r: bool)
    ensures
        r == spec_glob(pattern@, text@),
{
    let p = before_nul(chars_of(pattern));
    let s = before_nul(chars_of(text));
    assert(p@.skip(0) == p@);
    assert(s@.skip(0) == s@);
    glob_from(&p, 0, &s, 0)
}

} // verus!
