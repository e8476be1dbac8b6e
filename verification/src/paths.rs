use vstd::prelude::*;
use crate::text::{chars_of, extend_chars, slice_chars, string_of};

verus! {

// Paths are '/'-separated text. A path's file name is its last component; trailing
// separators and trailing "." components are ignored, and a last component of "."
// or ".." names no file.

/// Length of the first `m` characters of `p` once trailing separators and trailing
/// "/." are dropped.
pub open spec fn trimmed_len(p: Seq<char>, m: int) -> int
    decreases m,
{
    if m <= 0 {
        0
    } else if p[m - 1] == '/' {
        trimmed_len(p, m - 1)
    } else if m >= 2 && p[m - 1] == '.' && p[m - 2] == '/' {
        trimmed_len(p, m - 2)
    } else {
        m
    }
}

/// `p` without its trailing separators.
pub open spec fn trim_end(p: Seq<char>) -> Seq<char> {
    p.subrange(0, trimmed_len(p, p.len() as int))
}

/// The index of the last `c` among the first `m` characters of `p`, or -1.
pub open spec fn last_index_of(p: Seq<char>, c: char, m: int) -> int
    decreases m,
{
    if m <= 0 {
        -1
    } else if p[m - 1] == c {
        m - 1
    } else {
        last_index_of(p, c, m - 1)
    }
}

/// Where the last component of `p` starts in `trim_end(p)`.
pub open spec fn segment_start(p: Seq<char>) -> int {
    last_index_of(trim_end(p), '/', trim_end(p).len() as int) + 1
}

/// The last component of `p`.
pub open spec fn last_segment(p: Seq<char>) -> Seq<char> {
    trim_end(p).subrange(segment_start(p), trim_end(p).len() as int)
}

/// The file name of `p`: its last component, unless that is empty, "." or "..".
pub open spec fn file_name_spec(p: Seq<char>) -> Option<Seq<char>> {
    let s = last_segment(p);
    if s.len() == 0 || s == seq!['.'] || s == seq!['.', '.'] {
        None
    } else {
        Some(s)
    }
}

/// A file name split at its last dot: the stem, and the extension if there is one.
/// A name with no dot, or whose only dot is its first character, has no extension.
pub open spec fn split_dot(name: Seq<char>) -> (Seq<char>, Option<Seq<char>>) {
    let d = last_index_of(name, '.', name.len() as int);
    if d <= 0 {
        (name, None)
    } else {
        (name.subrange(0, d), Some(name.subrange(d + 1, name.len() as int)))
    }
}

pub open spec fn file_stem_spec(p: Seq<char>) -> Option<Seq<char>> {
    match file_name_spec(p) {
        Some(n) => Some(split_dot(n).0),
        None => None,
    }
}

pub open spec fn extension_spec(p: Seq<char>) -> Option<Seq<char>> {
    match file_name_spec(p) {
        Some(n) => split_dot(n).1,
        None => None,
    }
}

/// `rest` appended to `base` with one separator between; an absolute `rest` replaces `base`.
pub open spec fn join_spec(base: Seq<char>, rest: Seq<char>) -> Seq<char> {
    if rest.len() > 0 && rest[0] == '/' {
        rest
    } else if base.len() == 0 {
        rest
    } else if base.last() == '/' {
        base + rest
    } else {
        base + seq!['/'] + rest
    }
}

/// `p` without its last component; none for an empty path or the root.
pub open spec fn parent_spec(p: Seq<char>) -> Option<Seq<char>> {
    let t = trim_end(p);
    if t.len() == 0 {
        None
    } else {
        let k = last_index_of(t, '/', t.len() as int);
        if k < 0 {
            Some(Seq::empty())
        } else {
            let pre = trim_end(t.subrange(0, k));
            if pre.len() == 0 {
                Some(seq!['/'])
            } else {
                Some(pre)
            }
        }
    }
}

/// `p` with the extension of its file name replaced by `ext` (removed when `ext` is
/// empty); `p` itself when it has no file name.
pub open spec fn with_extension_spec(p: Seq<char>, ext: Seq<char>) -> Seq<char> {
    match file_name_spec(p) {
        None => p,
        Some(n) => {
            let base = trim_end(p).subrange(0, segment_start(p) + split_dot(n).0.len());
            if ext.len() == 0 {
                base
            } else {
                base + seq!['.'] + ext
            }
        },
    }
}

proof fn lemma_trimmed_len(p: Seq<char>, m: int)
    requires
        0 <= m <= p.len(),
    ensures
        0 <= trimmed_len(p, m) <= m,
        trimmed_len(p, m) > 0 ==> p[trimmed_len(p, m) - 1] != '/',
        trimmed_len(p, m) >= 2 ==> !(p[trimmed_len(p, m) - 1] == '.' && p[trimmed_len(p, m) - 2] == '/'),
    decreases m,
{
    if m > 0 {
        lemma_trimmed_len(p, m - 1);
        if m >= 2 {
            lemma_trimmed_len(p, m - 2);
        }
    }
}

proof fn lemma_last_index(p: Seq<char>, c: char, m: int)
    requires
        0 <= m <= p.len(),
    ensures
        -1 <= last_index_of(p, c, m) < m,
        last_index_of(p, c, m) >= 0 ==> p[last_index_of(p, c, m)] == c,
        forall|j: int| last_index_of(p, c, m) < j < m ==> p[j] != c,
    decreases m,
{
    if m > 0 {
        lemma_last_index(p, c, m - 1);
    }
}

fn trimmed_len_exec(v: &Vec<char>, m: usize) -> (r: usize)
    requires
        m <= v@.len(),
    ensures
        r as int == trimmed_len(v@, m as int),
        r <= m,
        r > 0 ==> v@[r - 1] != '/',
{
    proof {
        lemma_trimmed_len(v@, m as int);
    }
    let mut k = m;
    let mut done = false;
    while !done
        invariant
            k <= m,
            m <= v@.len(),
            trimmed_len(v@, m as int) == trimmed_len(v@, k as int),
            done ==> trimmed_len(v@, k as int) == k,
        decreases k + (if done { 0int } else { 1int }),
    {
        if k > 0 && v[k - 1] == '/' {
            k -= 1;
        } else if k >= 2 && v[k - 1] == '.' && v[k - 2] == '/' {
            k -= 2;
        } else {
            done = true;
        }
    }
    k
}

fn last_index_exec(v: &Vec<char>, c: char, m: usize) -> (r: Option<usize>)
    requires
        m <= v@.len(),
    ensures
        match r {
            Some(i) => i as int == last_index_of(v@, c, m as int) && i < m && v@[i as int] == c,
            None => last_index_of(v@, c, m as int) == -1,
        },
        forall|j: int| last_index_of(v@, c, m as int) < j < m ==> v@[j] != c,
{
    proof {
        lemma_last_index(v@, c, m as int);
    }
    let mut k = m;
    while k > 0
        invariant
            k <= m,
            m <= v@.len(),
            last_index_of(v@, c, m as int) == last_index_of(v@, c, k as int),
            forall|j: int| last_index_of(v@, c, m as int) < j < m ==> v@[j] != c,
            -1 <= last_index_of(v@, c, m as int) < m,
        decreases k,
    {
        if v[k - 1] == c {
            return Some(k - 1);
        }
        k -= 1;
    }
    None
}

/// Where the last component starts, and where `trim_end` ends.
fn segment_bounds(v: &Vec<char>) -> (r: (usize, usize))
    ensures
        r.1 as int == trim_end(v@).len(),
        trim_end(v@) == v@.subrange(0, r.1 as int),
        r.0 as int == segment_start(v@),
        r.0 <= r.1 <= v@.len(),
        last_segment(v@) =~= v@.subrange(r.0 as int, r.1 as int),
{
    let t = trimmed_len_exec(v, v.len());
    proof {
        lemma_trimmed_len(v@, v@.len() as int);
        let tr = trim_end(v@);
        lemma_last_index(tr, '/', tr.len() as int);
    }
    let start = match last_index_exec(v, '/', t) {
        Some(i) => {
            assert(i < t);
            i + 1
        },
        None => 0,
    };
    proof {
        let tr = trim_end(v@);
        assert forall|j: int| 0 <= j < t implies tr[j] == v@[j] by {}
        assert(last_index_of(tr, '/', t as int) == last_index_of(v@, '/', t as int)) by {
            lemma_last_index_agree(tr, v@, '/', t as int);
        }
    }
    (start, t)
}

proof fn lemma_last_index_agree(a: Seq<char>, b: Seq<char>, c: char, m: int)
    requires
        0 <= m <= a.len(),
        m <= b.len(),
        forall|j: int| 0 <= j < m ==> a[j] == b[j],
    ensures
        last_index_of(a, c, m) == last_index_of(b, c, m),
    decreases m,
{
    if m > 0 {
        lemma_last_index_agree(a, b, c, m - 1);
    }
}

fn is_dot_name(v: &Vec<char>) -> (r: bool)
    ensures
        r == (v@ == seq!['.'] || v@ == seq!['.', '.']),
{
    if v.len() == 1 {
        proof {
            if v@ == seq!['.', '.'] {
                assert(v@.len() == 2);
            }
        }
        let r = v[0] == '.';
        proof {
            if r {
                assert(v@ =~= seq!['.']);
            }
        }
        r
    } else if v.len() == 2 {
        let r = v[0] == '.' && v[1] == '.';
        proof {
            if r {
                assert(v@ =~= seq!['.', '.']);
            }
            if v@ == seq!['.'] {
                assert(v@.len() == 1);
            }
        }
        r
    } else {
        proof {
            if v@ == seq!['.'] {
                assert(v@.len() == 1);
            }
            if v@ == seq!['.', '.'] {
                assert(v@.len() == 2);
            }
        }
        false
    }
}

fn file_name_chars(v: &Vec<char>) -> (r: Option<Vec<char>>)
    ensures
        match file_name_spec(v@) {
            Some(n) => r matches Some(x) && x@ == n,
            None => r is None,
        },
{
    let (start, end) = segment_bounds(v);
    let seg = slice_chars(v, start, end);
    proof {
        assert(seg@ =~= last_segment(v@));
    }
    if seg.len() == 0 || is_dot_name(&seg) {
        None
    } else {
        Some(seg)
    }
}

fn split_dot_chars(name: &Vec<char>) -> (r: (Vec<char>, Option<Vec<char>>))
    ensures
        r.0@ == split_dot(name@).0,
        match split_dot(name@).1 {
            Some(e) => r.1 matches Some(x) && x@ == e,
            None => r.1 is None,
        },
{
    match last_index_exec(name, '.', name.len()) {
        Some(d) => {
            proof {
                lemma_last_index(name@, '.', name@.len() as int);
            }
            if d == 0 {
                (slice_chars(name, 0, name.len()), None)
            } else {
                (slice_chars(name, 0, d), Some(slice_chars(name, d + 1, name.len())))
            }
        },
        None => (slice_chars(name, 0, name.len()), None),
    }
}

/// The file name of `p` (`Path::file_name`).
pub fn file_name(p: &str) -> (r: Option<String>)
    ensures
        match file_name_spec(p@) {
            Some(n) => r matches Some(x) && x@ == n,
            None => r is None,
        },
{
    let v = chars_of(p);
    match file_name_chars(&v) {
        Some(n) => Some(string_of(&n)),
        None => None,
    }
}

/// The file name of `p` without its extension (`Path::file_stem`).
pub fn file_stem(p: &str) -> (r: Option<String>)
    ensures
        match file_stem_spec(p@) {
            Some(n) => r matches Some(x) && x@ == n,
            None => r is None,
        },
{
    let v = chars_of(p);
    match file_name_chars(&v) {
        Some(n) => {
            let (stem, _) = split_dot_chars(&n);
            Some(string_of(&stem))
        },
        None => None,
    }
}

/// The extension of the file name of `p` (`Path::extension`).
pub fn extension(p: &str) -> (r: Option<String>)
    ensures
        match extension_spec(p@) {
            Some(n) => r matches Some(x) && x@ == n,
            None => r is None,
        },
{
    let v = chars_of(p);
    match file_name_chars(&v) {
        Some(n) => {
            let (_, ext) = split_dot_chars(&n);
            match ext {
                Some(e) => Some(string_of(&e)),
                None => None,
            }
        },
        None => None,
    }
}

fn join_chars(base: &Vec<char>, rest: &Vec<char>) -> (r: Vec<char>)
    ensures
        r@ == join_spec(base@, rest@),
{
    if rest.len() > 0 && rest[0] == '/' {
        slice_chars(rest, 0, rest.len())
    } else if base.len() == 0 {
        slice_chars(rest, 0, rest.len())
    } else {
        let mut r = slice_chars(base, 0, base.len());
        if base[base.len() - 1] != '/' {
            r.push('/');
        }
        extend_chars(&mut r, rest);
        r
    }
}

/// `rest` appended to `base` (`Path::join`).
pub fn join(base: &str, rest: &str) -> (r: String)
    ensures
        r@ == join_spec(base@, rest@),
{
    let b = chars_of(base);
    let t = chars_of(rest);
    string_of(&join_chars(&b, &t))
}

/// `p` without its last component (`Path::parent`).
pub fn parent(p: &str) -> (r: Option<String>)
    ensures
        match parent_spec(p@) {
            Some(n) => r matches Some(x) && x@ == n,
            None => r is None,
        },
{
    let v = chars_of(p);
    let t = trimmed_len_exec(&v, v.len());
    if t == 0 {
        return None;
    }
    let ghost tr = trim_end(v@);
    proof {
        lemma_trimmed_len(v@, v@.len() as int);
        lemma_last_index_agree(tr, v@, '/', t as int);
    }
    match last_index_exec(&v, '/', t) {
        None => Some(String::new()),
        Some(k) => {
            proof {
                lemma_last_index(v@, '/', t as int);
                let pre = tr.subrange(0, k as int);
                assert(pre =~= v@.subrange(0, k as int));
                lemma_trimmed_len_agree(pre, v@, k as int);
            }
            let e = trimmed_len_exec(&v, k);
            if e == 0 {
                let mut r = String::new();
                crate::text::push_char(&mut r, '/');
                proof {
                    assert(r@ =~= seq!['/']);
                }
                Some(r)
            } else {
                let s = slice_chars(&v, 0, e);
                Some(string_of(&s))
            }
        },
    }
}

proof fn lemma_trimmed_len_agree(a: Seq<char>, b: Seq<char>, m: int)
    requires
        0 <= m <= a.len(),
        m <= b.len(),
        forall|j: int| 0 <= j < m ==> a[j] == b[j],
    ensures
        trimmed_len(a, m) == trimmed_len(b, m),
    decreases m,
{
    if m > 0 {
        lemma_trimmed_len_agree(a, b, m - 1);
    }
}

/// `p` with its extension replaced by `ext` (`Path::with_extension`).
pub fn with_extension(p: &str, ext: &str) -> (r: String)
    ensures
        r@ == with_extension_spec(p@, ext@),
{
    let v = chars_of(p);
    let (start, end) = segment_bounds(&v);
    let seg = slice_chars(&v, start, end);
    proof {
        assert(seg@ =~= last_segment(v@));
    }
    if seg.len() == 0 || is_dot_name(&seg) {
        return owned_copy(p);
    }
    let (stem, _) = split_dot_chars(&seg);
    proof {
        lemma_last_index(seg@, '.', seg@.len() as int);
    }
    let mut r = slice_chars(&v, 0, start + stem.len());
    proof {
        assert(r@ =~= trim_end(v@).subrange(0, segment_start(v@) + split_dot(seg@).0.len()));
    }
    let e = chars_of(ext);
    if e.len() > 0 {
        r.push('.');
        extend_chars(&mut r, &e);
    }
    string_of(&r)
}

pub proof fn lemma_last_index_pub(p: Seq<char>, c: char, m: int)
    requires
        0 <= m <= p.len(),
    ensures
        -1 <= last_index_of(p, c, m) < m,
        last_index_of(p, c, m) >= 0 ==> p[last_index_of(p, c, m)] == c,
        forall|j: int| last_index_of(p, c, m) < j < m ==> p[j] != c,
{
    lemma_last_index(p, c, m);
}

pub proof fn lemma_trimmed_len_pub(p: Seq<char>, m: int)
    requires
        0 <= m <= p.len(),
    ensures
        0 <= trimmed_len(p, m) <= m,
{
    lemma_trimmed_len(p, m);
}

fn owned_copy(p: &str) -> (r: String)
    ensures
        r@ == p@,
{
    crate::text::owned(p)
}

} // verus!
