//! Unix paths as text, with the rules of `std::path` that the keystore uses:
//! components, comparison by components, prefixes, file names, extensions
//! and joining.
//!
//! A path's components are: a root `/` when it starts with `/`; a leading
//! `.` when a relative path starts with `.` then `/` or its end; then its
//! `/`-separated parts, leaving out empty parts and `.`. Two paths are the
//! same path when their components are the same.
use vstd::prelude::*;
use crate::text::{chars_of, push_char, string_from_chars};

verus! {

/// Whether a part of a path is kept as a component.
pub open spec fn kept(part: Seq<char>) -> bool {
    part.len() > 0 && part != seq!['.']
}

/// The components of the parts in `s`, the first part being `cur` followed by `s`'s first part.
pub open spec fn parts_from(s: Seq<char>, cur: Seq<char>) -> Seq<Seq<char>>
    decreases s.len(),
{
    if s.len() == 0 {
        if kept(cur) {
            seq![cur]
        } else {
            Seq::empty()
        }
    } else if s[0] == '/' {
        (if kept(cur) {
            seq![cur]
        } else {
            Seq::<Seq<char>>::empty()
        }) + parts_from(s.drop_first(), Seq::empty())
    } else {
        parts_from(s.drop_first(), cur.push(s[0]))
    }
}

/// Whether a path has a root.
pub open spec fn spec_is_absolute(p: Seq<char>) -> bool {
    p.len() > 0 && p[0] == '/'
}

/// Whether a relative path starts with the current-directory component.
pub open spec fn starts_cur_dir(p: Seq<char>) -> bool {
    p.len() > 0 && p[0] == '.' && (p.len() == 1 || p[1] == '/')
}

/// The components of a path.
pub open spec fn components(p: Seq<char>) -> Seq<Seq<char>> {
    if spec_is_absolute(p) {
        seq![seq!['/']] + parts_from(p.drop_first(), Seq::empty())
    } else if starts_cur_dir(p) {
        seq![seq!['.']] + parts_from(p.drop_first(), Seq::empty())
    } else {
        parts_from(p, Seq::empty())
    }
}

/// Whether two texts name the same path.
pub open spec fn same_path(a: Seq<char>, b: Seq<char>) -> bool {
    components(a) == components(b)
}

/// Whether the components of `base` begin the components of `p`.
pub open spec fn spec_starts_with(p: Seq<char>, base: Seq<char>) -> bool {
    components(base).len() <= components(p).len() && components(p).take(
        components(base).len() as int,
    ) == components(base)
}

pub open spec fn chars_view(v: Seq<Vec<char>>) -> Seq<Seq<char>> {
    v.map_values(|c: Vec<char>| c@)
}

/// Whether a text has no `/`.
pub open spec fn slash_free(n: Seq<char>) -> bool {
    forall|i: int| 0 <= i < n.len() ==> #[trigger] n[i] != '/'
}

/// The parts of a text with no `/`: the text (after `cur`) as one part.
proof fn lemma_parts_single(n: Seq<char>, cur: Seq<char>)
    requires
        slash_free(n),
    ensures
        parts_from(n, cur) == (if kept(cur + n) {
            seq![cur + n]
        } else {
            Seq::<Seq<char>>::empty()
        }),
    decreases n.len(),
{
    if n.len() == 0 {
        assert(cur + n == cur);
    } else {
        let t = n.drop_first();
        assert(n[0] != '/');
        assert forall|i: int| 0 <= i < t.len() implies #[trigger] t[i] != '/' by {
            assert(t[i] == n[i + 1]);
        }
        lemma_parts_single(t, cur.push(n[0]));
        assert(cur.push(n[0]) + t == cur + n);
    }
}

/// Appending `/` and a name adds the name as the last part.
proof fn lemma_parts_append(s: Seq<char>, n: Seq<char>, cur: Seq<char>)
    requires
        slash_free(n),
        kept(n),
    ensures
        parts_from(s + seq!['/'] + n, cur) == parts_from(s, cur) + seq![n],
    decreases s.len(),
{
    let x = s + seq!['/'] + n;
    let head = if kept(cur) {
        seq![cur]
    } else {
        Seq::<Seq<char>>::empty()
    };
    if s.len() == 0 {
        assert(x == seq!['/'] + n);
        assert(x[0] == '/');
        assert(x.drop_first() == n);
        lemma_parts_single(n, Seq::empty());
        assert(Seq::<char>::empty() + n == n);
    } else {
        assert(x[0] == s[0]);
        assert(x.drop_first() == s.drop_first() + seq!['/'] + n);
        if s[0] == '/' {
            lemma_parts_append(s.drop_first(), n, Seq::empty());
            assert(head + (parts_from(s.drop_first(), Seq::empty()) + seq![n]) == (head + parts_from(
                s.drop_first(),
                Seq::empty(),
            )) + seq![n]);
        } else {
            lemma_parts_append(s.drop_first(), n, cur.push(s[0]));
        }
    }
}

/// A name (a part other than `.`, with no `/`) joined onto an absolute
/// directory adds that name as the last component: the directory's
/// components begin the result's, so the result lies under the directory.
pub proof fn law_name_under_directory(d: Seq<char>, n: Seq<char>)
    requires
        spec_is_absolute(d),
        slash_free(n),
        kept(n),
    ensures
        components(d + seq!['/'] + n) == components(d) + seq![n],
        spec_starts_with(d + seq!['/'] + n, d),
{
    let x = d + seq!['/'] + n;
    assert(x[0] == '/');
    assert(x.drop_first() == d.drop_first() + seq!['/'] + n);
    lemma_parts_append(d.drop_first(), n, Seq::empty());
    assert(seq![seq!['/']] + (parts_from(d.drop_first(), Seq::empty()) + seq![n]) == (seq![seq!['/']]
        + parts_from(d.drop_first(), Seq::empty())) + seq![n]);
    assert((components(d) + seq![n]).take(components(d).len() as int) == components(d));
}

proof fn lemma_part_start_at(p: Seq<char>, start: int, end: int)
    requires
        0 <= start <= end <= p.len(),
        start == 0 || p[start - 1] == '/',
        forall|k: int| start <= k < end ==> #[trigger] p[k] != '/',
    ensures
        part_start(p, end) == start,
    decreases end,
{
    if end > start {
        lemma_part_start_at(p, start, end - 1);
    }
}

proof fn lemma_last_dot_at(p: Seq<char>, start: int, j: int, end: int)
    requires
        0 <= start <= j < end <= p.len(),
        p[j] == '.',
        forall|k: int| j < k < end ==> #[trigger] p[k] != '.',
    ensures
        last_dot(p, start, end) == j,
    decreases end,
{
    if end - 1 > j {
        lemma_last_dot_at(p, start, j, end - 1);
    }
}

/// The extension of a file name `stem.x` (with `x` free of `.` and `/`) is
/// `x`, and replacing it replaces only `x`: what comes before its last
/// `.` (earlier extensions included) stays. So replacing the extension
/// with itself gives the path back.
pub proof fn law_last_extension(dir: Seq<char>, stem: Seq<char>, x: Seq<char>, y: Seq<char>)
    requires
        dir.len() == 0 || dir.last() == '/',
        stem.len() > 0,
        slash_free(stem),
        x.len() > 0,
        slash_free(x),
        forall|i: int| 0 <= i < x.len() ==> #[trigger] x[i] != '.',
        y.len() > 0,
    ensures
        spec_extension(dir + stem + seq!['.'] + x) == Some(x),
        spec_with_extension(dir + stem + seq!['.'] + x, y) == dir + stem + seq!['.'] + y,
        spec_with_extension(dir + stem + seq!['.'] + x, x) == dir + stem + seq!['.'] + x,
{
    let p = dir + stem + seq!['.'] + x;
    let a = dir.len() as int;
    let j = a + stem.len();
    let n = p.len() as int;
    assert(n == j + 1 + x.len());
    assert forall|k: int| a <= k < n implies #[trigger] p[k] != '/' by {
        if k < j {
            assert(p[k] == stem[k - a]);
        } else if k > j {
            assert(p[k] == x[k - j - 1]);
        }
    }
    if a > 0 {
        assert(p[a - 1] == dir.last());
    }
    lemma_part_start_at(p, a, n);
    assert(p[n - 1] == x[x.len() - 1]);
    let name = p.subrange(a, n);
    assert(name.len() >= 3);
    assert(name[name.len() - 1] == x[x.len() - 1]);
    assert(name != seq!['.']);
    assert(name != seq!['.', '.']);
    assert(name_span(p, n) == Some((a, n)));
    assert(p[j] == '.');
    assert forall|k: int| j < k < n implies #[trigger] p[k] != '.' by {
        assert(p[k] == x[k - j - 1]);
    }
    lemma_last_dot_at(p, a, j, n);
    assert(p.subrange(j + 1, n) == x);
    assert(p.take(j) == dir + stem);
    assert(dir + stem + (seq!['.'] + y) == dir + stem + seq!['.'] + y);
    assert(dir + stem + (seq!['.'] + x) == p);
}

/// Filtering keeps a sequence whose entries all pass.
pub proof fn lemma_filter_keeps_all<T>(s: Seq<T>, pred: spec_fn(T) -> bool)
    requires
        forall|i: int| 0 <= i < s.len() ==> pred(#[trigger] s[i]),
    ensures
        s.filter(pred) == s,
    decreases s.len(),
{
    reveal_with_fuel(Seq::<_>::filter, 1);
    if s.len() > 0 {
        lemma_filter_keeps_all(s.drop_last(), pred);
        assert(s.drop_last().push(s.last()) == s);
    }
}

/// Whether a path has a root.
pub fn is_absolute(p: &str) -> (r: bool)
    ensures
        r == spec_is_absolute(p@),
{
    let c = chars_of(p);
    c.len() > 0 && c[0] == '/'
}

fn parts_of(s: &Vec<char>, start: usize) -> (r: Vec<Vec<char>>)
    requires
        start <= s.len(),
    ensures
        chars_view(r@) == parts_from(s@.skip(start as int), Seq::empty()),
{
    let mut out: Vec<Vec<char>> = Vec::new();
    let mut cur: Vec<char> = Vec::new();
    let mut i = start;
    assert(chars_view(out@) + parts_from(s@.skip(i as int), cur@) == parts_from(
        s@.skip(start as int),
        Seq::empty(),
    ));
    while i < s.len()
        invariant
            start <= i <= s.len(),
            chars_view(out@) + parts_from(s@.skip(i as int), cur@) == parts_from(
                s@.skip(start as int),
                Seq::empty(),
            ),
        decreases s.len() - i,
    {
        let ghost rest = s@.skip(i as int);
        assert(rest[0] == s@[i as int]);
        assert(rest.drop_first() == s@.skip(i + 1));
        let ghost prev = chars_view(out@);
        if s[i] == '/' {
            let keep = cur.len() > 0 && !(cur.len() == 1 && cur[0] == '.');
            assert(keep == kept(cur@)) by {
                if cur@ == seq!['.'] {
                    assert(cur@[0] == '.');
                }
                if cur.len() == 1 && cur[0] == '.' {
                    assert(cur@ == seq!['.']);
                }
            }
            if keep {
                let ghost c = cur@;
                out.push(cur);
                assert(chars_view(out@) == prev.push(c));
                assert(prev.push(c) + parts_from(s@.skip(i + 1), Seq::empty()) == prev + (seq![c]
                    + parts_from(s@.skip(i + 1), Seq::empty())));
            } else {
                assert(prev + (Seq::<Seq<char>>::empty() + parts_from(s@.skip(i + 1), Seq::empty()))
                    == prev + parts_from(s@.skip(i + 1), Seq::empty()));
            }
            cur = Vec::new();
        } else {
            cur.push(s[i]);
        }
        i += 1;
    }
    let ghost prev = chars_view(out@);
    assert(s@.skip(i as int).len() == 0);
    let keep = cur.len() > 0 && !(cur.len() == 1 && cur[0] == '.');
    assert(keep == kept(cur@)) by {
        if cur@ == seq!['.'] {
            assert(cur@[0] == '.');
        }
        if cur.len() == 1 && cur[0] == '.' {
            assert(cur@ == seq!['.']);
        }
    }
    if keep {
        let ghost c = cur@;
        out.push(cur);
        assert(chars_view(out@) == prev.push(c));
    } else {
        assert(prev + Seq::<Seq<char>>::empty() == prev);
    }
    out
}

/// The components of a path, each as its characters.
pub fn path_components(p: &str) -> (r: Vec<Vec<char>>)
    ensures
        chars_view(r@) == components(p@),
{
    let s = chars_of(p);
    if s.len() > 0 && s[0] == '/' {
        let mut r: Vec<Vec<char>> = Vec::new();
        let mut root: Vec<char> = Vec::new();
        root.push('/');
        r.push(root);
        let mut rest = parts_of(&s, 1);
        assert(s@.skip(1) == s@.drop_first());
        let ghost head = chars_view(r@);
        let ghost tail = chars_view(rest@);
        assert(head == seq![seq!['/']]);
        r.append(&mut rest);
        assert(chars_view(r@) == head + tail);
        r
    } else if s.len() > 0 && s[0] == '.' && (s.len() == 1 || s[1] == '/') {
        let mut r: Vec<Vec<char>> = Vec::new();
        let mut cur: Vec<char> = Vec::new();
        cur.push('.');
        r.push(cur);
        let mut rest = parts_of(&s, 1);
        assert(s@.skip(1) == s@.drop_first());
        let ghost head = chars_view(r@);
        let ghost tail = chars_view(rest@);
        assert(head == seq![seq!['.']]);
        r.append(&mut rest);
        assert(chars_view(r@) == head + tail);
        r
    } else {
        assert(s@.skip(0) == s@);
        parts_of(&s, 0)
    }
}

fn chars_eq(a: &Vec<char>, b: &Vec<char>) -> (r: bool)
    ensures
        r == (a@ == b@),
{
    if a.len() != b.len() {
        return false;
    }
    let mut i: usize = 0;
    while i < a.len()
        invariant
            a.len() == b.len(),
            i <= a.len(),
            forall|k: int| 0 <= k < i ==> a@[k] == b@[k],
        decreases a.len() - i,
    {
        if a[i] != b[i] {
            return false;
        }
        i += 1;
    }
    assert(a@ == b@);
    true
}

/// Whether the components of `base` begin the components of `p` (`Path::starts_with`).
pub fn starts_with(p: &str, base: &str) -> (r: bool)
    ensures
        r == spec_starts_with(p@, base@),
{
    let pc = path_components(p);
    let bc = path_components(base);
    if bc.len() > pc.len() {
        return false;
    }
    let mut i: usize = 0;
    while i < bc.len()
        invariant
            chars_view(pc@) == components(p@),
            chars_view(bc@) == components(base@),
            bc.len() <= pc.len(),
            i <= bc.len(),
            forall|k: int| 0 <= k < i ==> chars_view(pc@)[k] == chars_view(bc@)[k],
        decreases bc.len() - i,
    {
        assert(chars_view(pc@)[i as int] == pc@[i as int]@);
        assert(chars_view(bc@)[i as int] == bc@[i as int]@);
        if !chars_eq(&pc[i], &bc[i]) {
            assert(chars_view(pc@).take(bc.len() as int)[i as int] != chars_view(bc@)[i as int]);
            assert(chars_view(pc@).take(bc.len() as int) != chars_view(bc@));
            assert(!spec_starts_with(p@, base@));
            return false;
        }
        i += 1;
    }
    assert(chars_view(pc@).take(bc.len() as int) == chars_view(bc@));
    true
}

/// Whether two texts name the same path (`Path`'s `==`).
pub fn is_same_path(a: &str, b: &str) -> (r: bool)
    ensures
        r == same_path(a@, b@),
{
    let ac = path_components(a);
    let bc = path_components(b);
    assert(chars_view(ac@).len() == ac.len());
    assert(chars_view(bc@).len() == bc.len());
    if ac.len() != bc.len() {
        return false;
    }
    let mut i: usize = 0;
    while i < ac.len()
        invariant
            chars_view(ac@) == components(a@),
            chars_view(bc@) == components(b@),
            ac.len() == bc.len(),
            i <= ac.len(),
            forall|k: int| 0 <= k < i ==> chars_view(ac@)[k] == chars_view(bc@)[k],
        decreases ac.len() - i,
    {
        assert(chars_view(ac@)[i as int] == ac@[i as int]@);
        assert(chars_view(bc@)[i as int] == bc@[i as int]@);
        if !chars_eq(&ac[i], &bc[i]) {
            assert(chars_view(ac@)[i as int] != chars_view(bc@)[i as int]);
            assert(chars_view(ac@) != chars_view(bc@));
            return false;
        }
        i += 1;
    }
    assert(chars_view(ac@) == chars_view(bc@));
    true
}

/// Where the part that ends at `end` begins: just after the last `/` before `end`.
pub open spec fn part_start(p: Seq<char>, end: int) -> int
    decreases end,
{
    if end <= 0 {
        0
    } else if p[end - 1] == '/' {
        end
    } else {
        part_start(p, end - 1)
    }
}

pub proof fn lemma_part_start(p: Seq<char>, end: int)
    requires
        0 <= end <= p.len(),
    ensures
        0 <= part_start(p, end) <= end,
        end > 0 && p[end - 1] != '/' ==> part_start(p, end) < end,
        forall|k: int| part_start(p, end) <= k < end ==> p[k] != '/',
        part_start(p, end) > 0 ==> p[part_start(p, end) - 1] == '/',
    decreases end,
{
    if end > 0 && p[end - 1] != '/' {
        lemma_part_start(p, end - 1);
    }
}

/// Where the file name of `p[..end]` stands, if it has one: its last
/// component when that is a normal part (not the root, `.` or `..`).
pub open spec fn name_span(p: Seq<char>, end: int) -> Option<(int, int)>
    decreases end,
{
    if end <= 0 || end > p.len() {
        None
    } else if p[end - 1] == '/' {
        name_span(p, end - 1)
    } else {
        let start = part_start(p, end);
        if p.subrange(start, end) == seq!['.'] {
            if start <= 0 {
                None
            } else {
                proof {
                    lemma_part_start(p, end);
                }
                name_span(p, start)
            }
        } else if p.subrange(start, end) == seq!['.', '.'] {
            None
        } else {
            Some((start, end))
        }
    }
}

pub proof fn lemma_name_span_bounds(p: Seq<char>, end: int)
    ensures
        name_span(p, end) matches Some((s, e)) ==> 0 <= s < e <= end && e <= p.len(),
    decreases end,
{
    if 0 < end <= p.len() {
        lemma_part_start(p, end);
        if p[end - 1] == '/' {
            lemma_name_span_bounds(p, end - 1);
        } else if p.subrange(part_start(p, end), end) == seq!['.'] && part_start(p, end) > 0 {
            lemma_name_span_bounds(p, part_start(p, end));
        }
    }
}

/// The position of the last `.` in `p[start..end]`, or -1.
pub open spec fn last_dot(p: Seq<char>, start: int, end: int) -> int
    decreases end - start,
{
    if end <= start {
        -1
    } else if p[end - 1] == '.' {
        end - 1
    } else {
        last_dot(p, start, end - 1)
    }
}

/// The extension of a path's file name: what follows its last `.`, when
/// that `.` is not the name's first character (`Path::extension`).
pub open spec fn spec_extension(p: Seq<char>) -> Option<Seq<char>> {
    match name_span(p, p.len() as int) {
        None => None,
        Some((s, e)) => if last_dot(p, s, e) > s {
            Some(p.subrange(last_dot(p, s, e) + 1, e))
        } else {
            None
        },
    }
}

/// The path with the extension of its file name replaced by `ext` (none
/// when `ext` is empty); everything after the file stem is dropped. A path
/// with no file name is left as it is (`Path::with_extension`).
pub open spec fn spec_with_extension(p: Seq<char>, ext: Seq<char>) -> Seq<char> {
    match name_span(p, p.len() as int) {
        None => p,
        Some((s, e)) => {
            let stem_end = if last_dot(p, s, e) > s {
                last_dot(p, s, e)
            } else {
                e
            };
            p.take(stem_end) + (if ext.len() > 0 {
                seq!['.'] + ext
            } else {
                Seq::empty()
            })
        },
    }
}

/// The text of `base` joined with `rel` (`Path::join`): `rel` itself when
/// it is absolute, else `base`, a `/` if `base` does not end in one, and `rel`.
pub open spec fn spec_join(base: Seq<char>, rel: Seq<char>) -> Seq<char> {
    if spec_is_absolute(rel) {
        rel
    } else if base.len() > 0 && base.last() != '/' {
        base + seq!['/'] + rel
    } else {
        base + rel
    }
}

fn find_part_start(p: &Vec<char>, end: usize) -> (r: usize)
    requires
        end <= p.len(),
    ensures
        r == part_start(p@, end as int),
{
    let mut i = end;
    while i > 0 && p[i - 1] != '/'
        invariant
            i <= end <= p.len(),
            part_start(p@, end as int) == part_start(p@, i as int),
        decreases i,
    {
        i -= 1;
    }
    i
}

fn is_dot(p: &Vec<char>, start: usize, end: usize) -> (r: bool)
    requires
        start <= end <= p.len(),
    ensures
        r == (p@.subrange(start as int, end as int) == seq!['.']),
{
    if end - start == 1 && p[start] == '.' {
        assert(p@.subrange(start as int, end as int) == seq!['.']);
        true
    } else {
        proof {
            if p@.subrange(start as int, end as int) == seq!['.'] {
                assert(p@.subrange(start as int, end as int).len() == 1);
                assert(p@.subrange(start as int, end as int)[0] == p@[start as int]);
            }
        }
        false
    }
}

fn is_dot_dot(p: &Vec<char>, start: usize, end: usize) -> (r: bool)
    requires
        start <= end <= p.len(),
    ensures
        r == (p@.subrange(start as int, end as int) == seq!['.', '.']),
{
    if end - start == 2 && p[start] == '.' && p[start + 1] == '.' {
        assert(p@.subrange(start as int, end as int) == seq!['.', '.']);
        true
    } else {
        proof {
            if p@.subrange(start as int, end as int) == seq!['.', '.'] {
                assert(p@.subrange(start as int, end as int).len() == 2);
                assert(p@.subrange(start as int, end as int)[0] == p@[start as int]);
                assert(p@.subrange(start as int, end as int)[1] == p@[start + 1]);
            }
        }
        false
    }
}

fn find_name(p: &Vec<char>) -> (r: Option<(usize, usize)>)
    ensures
        r is None <==> name_span(p@, p@.len() as int) is None,
        r matches Some((s, e)) ==> name_span(p@, p@.len() as int) == Some((s as int, e as int)),
        r matches Some((s, e)) ==> s < e <= p.len(),
{
    proof {
        lemma_name_span_bounds(p@, p@.len() as int);
    }
    let mut end = p.len();
    loop
        invariant
            end <= p.len(),
            name_span(p@, p@.len() as int) == name_span(p@, end as int),
        decreases end,
    {
        if end == 0 {
            return None;
        }
        if p[end - 1] == '/' {
            end -= 1;
        } else {
            let start = find_part_start(p, end);
            proof {
                lemma_part_start(p@, end as int);
            }
            if is_dot(p, start, end) {
                if start == 0 {
                    return None;
                }
                end = start;
            } else if is_dot_dot(p, start, end) {
                return None;
            } else {
                return Some((start, end));
            }
        }
    }
}

fn find_last_dot(p: &Vec<char>, start: usize, end: usize) -> (r: Option<usize>)
    requires
        start <= end <= p.len(),
    ensures
        match r {
            Some(k) => k as int == last_dot(p@, start as int, end as int) && start <= k < end,
            None => last_dot(p@, start as int, end as int) == -1,
        },
{
    let mut i = end;
    while i > start && p[i - 1] != '.'
        invariant
            start <= i <= end,
            end <= p.len(),
            last_dot(p@, start as int, end as int) == last_dot(p@, start as int, i as int),
        decreases i,
    {
        i -= 1;
    }
    if i > start {
        Some(i - 1)
    } else {
        None
    }
}

/// The extension of a path's file name (`Path::extension`).
pub fn extension(p: &str) -> (r: Option<String>)
    ensures
        match r {
            Some(x) => spec_extension(p@) == Some(x@),
            None => spec_extension(p@) is None,
        },
{
    let c = chars_of(p);
    match find_name(&c) {
        None => None,
        Some((s, e)) => match find_last_dot(&c, s, e) {
            Some(k) => {
                if k > s {
                    let mut x: Vec<char> = Vec::new();
                    let mut i = k + 1;
                    while i < e
                        invariant
                            k + 1 <= i <= e <= c.len(),
                            x@ == c@.subrange(k + 1, i as int),
                        decreases e - i,
                    {
                        x.push(c[i]);
                        assert(c@.subrange(k + 1, i + 1) == c@.subrange(k + 1, i as int).push(c@[i as int]));
                        i += 1;
                    }
                    Some(string_from_chars(x.as_slice()))
                } else {
                    None
                }
            },
            None => None,
        },
    }
}

/// The path with its file name's extension replaced (`Path::with_extension`).
pub fn with_extension(p: &str, ext: &str) -> (r: String)
    ensures
        r@ == spec_with_extension(p@, ext@),
{
    let c = chars_of(p);
    match find_name(&c) {
        None => {
            let r = string_from_chars(c.as_slice());
            r
        },
        Some((s, e)) => {
            let stem_end = match find_last_dot(&c, s, e) {
                Some(k) => if k > s {
                    k
                } else {
                    e
                },
                None => e,
            };
            let mut out: Vec<char> = Vec::new();
            let mut i: usize = 0;
            while i < stem_end
                invariant
                    stem_end <= c.len(),
                    i <= stem_end,
                    out@ == c@.take(i as int),
                decreases stem_end - i,
            {
                out.push(c[i]);
                assert(c@.take(i + 1) == c@.take(i as int).push(c@[i as int]));
                i += 1;
            }
            let x = chars_of(ext);
            if x.len() > 0 {
                let ghost base = out@;
                out.push('.');
                let mut j: usize = 0;
                while j < x.len()
                    invariant
                        j <= x.len(),
                        out@ == base + seq!['.'] + x@.take(j as int),
                    decreases x.len() - j,
                {
                    out.push(x[j]);
                    assert(x@.take(j + 1) == x@.take(j as int).push(x@[j as int]));
                    j += 1;
                }
                assert(x@.take(x.len() as int) == x@);
                assert(base + seq!['.'] + x@ == base + (seq!['.'] + x@));
            } else {
                assert(out@ + Seq::<char>::empty() == out@);
            }
            string_from_chars(out.as_slice())
        },
    }
}

/// Joins a relative path onto a base (`Path::join`).
pub fn join(base: &str, rel: &str) -> (r: String)
    ensures
        r@ == spec_join(base@, rel@),
{
    if is_absolute(rel) {
        return rel.to_owned();
    }
    let b = chars_of(base);
    let x = chars_of(rel);
    let mut out = base.to_owned();
    if b.len() > 0 && b[b.len() - 1] != '/' {
        push_char(&mut out, '/');
    }
    let ghost start = out@;
    let mut j: usize = 0;
    while j < x.len()
        invariant
            j <= x.len(),
            out@ == start + x@.take(j as int),
        decreases x.len() - j,
    {
        push_char(&mut out, x[j]);
        assert(x@.take(j + 1) == x@.take(j as int).push(x@[j as int]));
        j += 1;
    }
    assert(x@.take(x.len() as int) == x@);
    out
}

} // verus!
