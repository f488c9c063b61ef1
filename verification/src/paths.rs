//! Path manipulation on path strings, following `std::path` on Unix:
//! components, file names, extensions, joining, and the placement of bare
//! file names under `artifacts/<category>/`.

use vstd::prelude::*;
use crate::text::{chars_of, push_char, push_str};

verus! {

/// Position of the last `c` before `end`, or `-1`.
pub open spec fn last_before(s: Seq<char>, end: int, c: char) -> int
    decreases end,
{
    if end <= 0 {
        -1
    } else if s[end - 1] == c {
        end - 1
    } else {
        last_before(s, end - 1, c)
    }
}

/// `last_before` is the last `c` before `end`.
pub proof fn lemma_last_before(s: Seq<char>, end: int, c: char)
    requires
        0 <= end <= s.len(),
    ensures
        -1 <= last_before(s, end, c) < end,
        last_before(s, end, c) >= 0 ==> s[last_before(s, end, c)] == c,
        forall|j: int| last_before(s, end, c) < j < end && 0 <= j ==> #[trigger] s[j] != c,
    decreases end,
{
    if end > 0 && s[end - 1] != c {
        lemma_last_before(s, end - 1, c);
    }
}

/// Position of the last `c` before `end`.
fn find_last_before(v: &Vec<char>, end: usize, c: char) -> (r: Option<usize>)
    requires
        end <= v@.len(),
    ensures
        match r {
            Some(i) => i as int == last_before(v@, end as int, c),
            None => last_before(v@, end as int, c) < 0,
        },
{
    let mut i: usize = end;
    while i > 0
        invariant
            i <= end <= v@.len(),
            last_before(v@, i as int, c) == last_before(v@, end as int, c),
        decreases i,
    {
        if v[i - 1] == c {
            return Some(i - 1);
        }
        i = i - 1;
    }
    None
}

/// Start of the segment that ends at `end`.
pub open spec fn segment_start(s: Seq<char>, end: int) -> int {
    last_before(s, end, '/') + 1
}

/// End of the last segment of `s[..end]` that is neither empty nor `.`, or
/// `-1` when every segment is.
pub open spec fn name_end(s: Seq<char>, end: int) -> int
    decreases end,
{
    if end <= 0 || end > s.len() {
        -1
    } else if s[end - 1] == '/' {
        name_end(s, end - 1)
    } else {
        let st = segment_start(s, end);
        proof {
            lemma_last_before(s, end, '/');
        }
        if end - st == 1 && s[st] == '.' {
            name_end(s, st)
        } else {
            end
        }
    }
}

/// The range of the file name, `Path::file_name`: the last component when
/// it is a normal one (not the root, `.` or `..`).
pub open spec fn file_name_range(s: Seq<char>) -> Option<(int, int)> {
    let e = name_end(s, s.len() as int);
    if e < 0 {
        None
    } else {
        let st = segment_start(s, e);
        if s.subrange(st, e) == seq!['.', '.'] {
            None
        } else {
            Some((st, e))
        }
    }
}

/// End of the file stem of the name at `[st, e)`: its last `.`, unless the
/// only `.` leads the name.
pub open spec fn stem_end(s: Seq<char>, st: int, e: int) -> int {
    let d = last_before(s, e, '.');
    if d > st { d } else { e }
}

/// `Path::extension`: the part of the file name after its last `.`.
pub open spec fn extension(s: Seq<char>) -> Option<Seq<char>> {
    match file_name_range(s) {
        None => None,
        Some((st, e)) => {
            let d = last_before(s, e, '.');
            if d > st { Some(s.subrange(d + 1, e)) } else { None }
        },
    }
}

/// `Path::with_extension`: the path cut after the file stem, with `.ext`
/// appended when `ext` is not empty; unchanged without a file name.
pub open spec fn with_extension(s: Seq<char>, ext: Seq<char>) -> Seq<char> {
    match file_name_range(s) {
        None => s,
        Some((st, e)) => s.subrange(0, stem_end(s, st, e)) + (if ext.len() > 0 {
            seq!['.'] + ext
        } else {
            seq![]
        }),
    }
}

/// Number of components of a relative path, as `Path::components` counts
/// them: empty and `.` segments are skipped, except a leading `.`.
pub open spec fn component_count(s: Seq<char>) -> nat
    decreases s.len(),
{
    let st = segment_start(s, s.len() as int);
    proof {
        lemma_last_before(s, s.len() as int, '/');
    }
    let seg = s.subrange(st, s.len() as int);
    if st == 0 {
        if seg.len() == 0 { 0 } else { 1 }
    } else {
        component_count(s.subrange(0, st - 1)) + (if seg.len() == 0 || seg == seq!['.'] { 0nat } else { 1nat })
    }
}

/// The path starts at the root.
pub open spec fn is_absolute(s: Seq<char>) -> bool {
    s.len() > 0 && s[0] == '/'
}

/// `PathBuf::join`: an absolute `b` replaces `a`; otherwise `b` follows `a`
/// after a separator, unless `a` is empty or already ends with one.
pub open spec fn join(a: Seq<char>, b: Seq<char>) -> Seq<char> {
    if is_absolute(b) {
        b
    } else if a.len() > 0 && a.last() != '/' {
        a + seq!['/'] + b
    } else {
        a + b
    }
}

/// Where an artifact path ends up: a relative path of at most one
/// component goes under `artifacts/<category>/`; any other path stays.
pub open spec fn artifact_path(path: Seq<char>, category: Seq<char>) -> Seq<char> {
    if !is_absolute(path) && component_count(path) <= 1 {
        join(join("artifacts"@, category), path)
    } else {
        path
    }
}

/// `s[from..to]` as a string.
fn collect(v: &Vec<char>, from: usize, to: usize) -> (r: String)
    requires
        from <= to <= v@.len(),
    ensures
        r@ == v@.subrange(from as int, to as int),
{
    let mut r = String::new();
    let mut i = from;
    while i < to
        invariant
            from <= i <= to <= v@.len(),
            r@ == v@.subrange(from as int, i as int),
        decreases to - i,
    {
        push_char(&mut r, v[i]);
        i = i + 1;
        assert(r@ =~= v@.subrange(from as int, i as int));
    }
    r
}

/// The characters `[a, b)` of `v` are `seq`.
fn range_equals(v: &Vec<char>, a: usize, b: usize, seq: &Vec<char>) -> (r: bool)
    requires
        a <= b <= v@.len(),
    ensures
        r == (v@.subrange(a as int, b as int) == seq@),
{
    if b - a != seq.len() {
        return false;
    }
    let mut i: usize = 0;
    while i < seq.len()
        invariant
            a <= b <= v@.len(),
            b - a == seq@.len(),
            i <= seq@.len(),
            forall|j: int| 0 <= j < i ==> v@[a + j] == seq@[j],
        decreases seq@.len() - i,
    {
        if v[a + i] != seq[i] {
            assert(v@.subrange(a as int, b as int)[i as int] != seq@[i as int]);
            return false;
        }
        i = i + 1;
    }
    assert(v@.subrange(a as int, b as int) =~= seq@);
    true
}

/// The range of the file name of the path `v`.
fn file_name_of(v: &Vec<char>) -> (r: Option<(usize, usize)>)
    ensures
        match r {
            Some((st, e)) => file_name_range(v@) == Some((st as int, e as int)) && st <= e <= v@.len(),
            None => file_name_range(v@) is None,
        },
{
    let ghost s = v@;
    let n = v.len();
    let mut end: usize = n;
    let mut found = false;
    let mut start: usize = 0;
    while end > 0 && !found
        invariant
            s == v@,
            n == s.len(),
            end <= n,
            found ==> name_end(s, n as int) == end as int && start as int == segment_start(s, end as int)
                && start < end,
            !found ==> name_end(s, end as int) == name_end(s, n as int),
        decreases end, if found { 0int } else { 1int },
    {
        if v[end - 1] == '/' {
            end = end - 1;
        } else {
            proof {
                lemma_last_before(s, end as int, '/');
            }
            let st = match find_last_before(v, end, '/') {
                Some(i) => i + 1,
                None => 0,
            };
            if end - st == 1 && v[st] == '.' {
                end = st;
            } else {
                found = true;
                start = st;
            }
        }
    }
    if !found {
        return None;
    }
    let dots = vec!['.', '.'];
    assert(dots@ =~= seq!['.', '.']);
    if range_equals(v, start, end, &dots) {
        None
    } else {
        Some((start, end))
    }
}

/// `path.extension() == Some(ext)`.
pub fn has_extension(path: &str, ext: &str) -> (r: bool)
    ensures
        r == (extension(path@) == Some(ext@)),
{
    let v = chars_of(path);
    let e = chars_of(ext);
    match file_name_of(&v) {
        None => false,
        Some((st, end)) => {
            proof {
                lemma_last_before(v@, end as int, '.');
            }
            match find_last_before(&v, end, '.') {
                Some(d) => {
                    if d > st {
                        range_equals(&v, d + 1, end, &e)
                    } else {
                        false
                    }
                },
                None => false,
            }
        },
    }
}

/// `path.with_extension(ext)`.
pub fn path_with_extension(path: &str, ext: &str) -> (r: String)
    ensures
        r@ == with_extension(path@, ext@),
{
    let v = chars_of(path);
    match file_name_of(&v) {
        None => {
            let mut r = String::new();
            push_str(&mut r, path);
            assert(r@ =~= with_extension(path@, ext@));
            r
        },
        Some((st, end)) => {
            proof {
                lemma_last_before(v@, end as int, '.');
            }
            let cut = match find_last_before(&v, end, '.') {
                Some(d) => if d > st { d } else { end },
                None => end,
            };
            let mut r = collect(&v, 0, cut);
            if !ext.is_empty() {
                push_char(&mut r, '.');
                push_str(&mut r, ext);
            }
            assert(r@ =~= with_extension(path@, ext@));
            r
        },
    }
}

/// Whether the path has at most one component; the scan stops at the
/// second one from the end.
fn at_most_one_component(v: &Vec<char>) -> (r: bool)
    ensures
        r == (component_count(v@) <= 1),
{
    let ghost s = v@;
    let n = v.len();
    let mut end: usize = n;
    let mut count: usize = 0;
    assert(s.subrange(0, n as int) =~= s);
    while count <= 1
        invariant
            s == v@,
            end <= n == s.len(),
            count <= 2,
            count + component_count(s.subrange(0, end as int)) == component_count(s),
        decreases end, 2 - count,
    {
        let ghost t = s.subrange(0, end as int);
        proof {
            lemma_last_before(t, end as int, '/');
            lemma_last_before(s, end as int, '/');
            let a = last_before(t, end as int, '/');
            let b = last_before(s, end as int, '/');
            if a < b {
                assert(t[b] == s[b]);
            } else if b < a {
                assert(t[a] == s[a]);
            }
            assert(a == b);
        }
        let st = match find_last_before(v, end, '/') {
            Some(i) => i + 1,
            None => 0,
        };
        assert(st as int == segment_start(t, t.len() as int));
        assert(t.subrange(st as int, end as int) =~= s.subrange(st as int, end as int));
        let dot = vec!['.'];
        assert(dot@ =~= seq!['.']);
        if st == 0 {
            return count + (if st == end { 0 } else { 1 }) <= 1;
        }
        let trivial = st == end || range_equals(v, st, end, &dot);
        assert(t.subrange(0, st - 1) =~= s.subrange(0, st - 1));
        if !trivial {
            count = count + 1;
        }
        end = st - 1;
    }
    false
}

/// Resolves a path to the `artifacts/<category>` directory if it is a
/// simple file name.
pub fn resolve_artifact_path(path: &str, category: &str) -> (r: String)
    ensures
        r@ == artifact_path(path@, category@),
{
    let v = chars_of(path);
    let absolute = v.len() > 0 && v[0] == '/';
    if !absolute && at_most_one_component(&v) {
        let mut base = String::new();
        push_str(&mut base, "artifacts");
        proof {
            reveal_strlit("artifacts");
        }
        let c = chars_of(category);
        if c.len() > 0 && c[0] == '/' {
            base = String::new();
            push_str(&mut base, category);
        } else {
            push_char(&mut base, '/');
            push_str(&mut base, category);
        }
        assert(base@ == join("artifacts"@, category@));
        let b = chars_of(base.as_str());
        let mut r = String::new();
        push_str(&mut r, base.as_str());
        if b.len() > 0 && b[b.len() - 1] != '/' {
            push_char(&mut r, '/');
        }
        push_str(&mut r, path);
        assert(r@ =~= artifact_path(path@, category@));
        r
    } else {
        let mut r = String::new();
        push_str(&mut r, path);
        r
    }
}

/// A `c` at `p` with none after it before `end` is the last one.
proof fn lemma_last_before_is(s: Seq<char>, end: int, c: char, p: int)
    requires
        -1 <= p < end <= s.len(),
        p >= 0 ==> s[p] == c,
        forall|j: int| p < j < end && 0 <= j ==> #[trigger] s[j] != c,
    ensures
        last_before(s, end, c) == p,
    decreases end,
{
    if end > 0 && end - 1 != p {
        lemma_last_before_is(s, end - 1, c, p);
    }
}

/// Appending a separator and more text never lowers the component count.
proof fn lemma_component_count_grows(x: Seq<char>, y: Seq<char>)
    ensures
        component_count(x + seq!['/'] + y) >= component_count(x),
    decreases y.len(),
{
    let s = x + seq!['/'] + y;
    lemma_last_before(y, y.len() as int, '/');
    let q = last_before(y, y.len() as int, '/');
    if q < 0 {
        assert forall|j: int| x.len() < j < s.len() && 0 <= j implies #[trigger] s[j] != '/' by {
            assert(s[j] == y[j - x.len() - 1]);
        }
        lemma_last_before_is(s, s.len() as int, '/', x.len() as int);
        assert(s.subrange(0, x.len() as int) =~= x);
    } else {
        let p = x.len() + 1 + q;
        assert(s[p] == y[q]);
        assert forall|j: int| p < j < s.len() && 0 <= j implies #[trigger] s[j] != '/' by {
            assert(s[j] == y[j - x.len() - 1]);
        }
        lemma_last_before_is(s, s.len() as int, '/', p);
        let y2 = y.subrange(0, q);
        assert(s.subrange(0, p) =~= x + seq!['/'] + y2);
        lemma_component_count_grows(x, y2);
    }
}

/// A trailing separator adds no component.
proof fn lemma_trailing_separator(x: Seq<char>)
    ensures
        component_count(x + seq!['/']) == component_count(x),
{
    let s = x + seq!['/'];
    lemma_last_before_is(s, s.len() as int, '/', x.len() as int);
    assert(s.subrange(0, x.len() as int) =~= x);
    assert(s.subrange(s.len() as int, s.len() as int) =~= Seq::<char>::empty());
}

/// The category names a directory under `artifacts/`: the category
/// directory is absolute or has at least two components.
pub open spec fn adds_component(category: Seq<char>) -> bool {
    is_absolute(category) || component_count(join("artifacts"@, category)) >= 2
}

/// Placing a path under a category directory twice places it once.
pub proof fn lemma_artifact_path_idempotent(path: Seq<char>, category: Seq<char>)
    requires
        adds_component(category),
    ensures
        artifact_path(artifact_path(path, category), category) == artifact_path(path, category),
{
    if !is_absolute(path) && component_count(path) <= 1 {
        let a = "artifacts"@;
        reveal_strlit("artifacts");
        let base = join(a, category);
        let r = join(base, path);
        if is_absolute(category) {
            assert(base == category);
            assert(r[0] == '/');
        } else {
            assert(base == a + seq!['/'] + category);
            assert(base[0] == 'a');
            if base.last() != '/' {
                assert(r == base + seq!['/'] + path);
                lemma_component_count_grows(base, path);
            } else {
                let x = base.drop_last();
                assert(base =~= x + seq!['/']);
                lemma_trailing_separator(x);
                assert(r =~= x + seq!['/'] + path);
                lemma_component_count_grows(x, path);
            }
            assert(r[0] == 'a');
        }
    }
}

} // verus!
