use vstd::prelude::*;
use crate::counting::lemma_distinct_within;
use crate::paths::{
    extension, extension_spec, file_name, file_name_spec, file_stem, file_stem_spec, join, join_spec,
    last_index_of, last_segment, split_dot, trim_end, segment_start,
};
use crate::text::{chars_of, decimal, decimal_chars, extend_chars, lowercase, owned, string_of, to_lowercase};

verus! {

/// Files larger than this (100 MiB) are copied into the inbox in chunks, with progress
/// reports, when someone listens for progress.
pub const LARGE_FILE_THRESHOLD: u64 = 104857600;

/// The message when a drop holds no file.
pub open spec fn no_files_message() -> Seq<char> {
    "No files found in the dropped items"@
}

/// A drop in which `found` files were found: refused exactly when there are none.
pub fn check_drop(found: usize) -> (r: Result<(), String>)
    ensures
        r is Err <==> found == 0,
        r matches Err(m) ==> m@ == no_files_message(),
{
    if found == 0 {
        Err(owned("No files found in the dropped items"))
    } else {
        Ok(())
    }
}

/// Whether a file of `size` bytes is copied in chunks, reporting progress: when it is
/// larger than `LARGE_FILE_THRESHOLD` and someone listens for progress.
pub fn copies_in_chunks(size: u64, with_progress: bool) -> (r: bool)
    ensures
        r == (size > LARGE_FILE_THRESHOLD && with_progress),
{
    size > LARGE_FILE_THRESHOLD && with_progress
}

/// The extension that rules see for the file at `src`: its extension in lowercase, or
/// the empty string when it has none.
pub fn rule_extension(src: &str) -> (r: String)
    ensures
        r@ == lowercase(or_empty(extension_spec(src@))),
{
    match extension(src) {
        Some(e) => to_lowercase(e.as_str()),
        None => {
            let r = to_lowercase("");
            proof {
                reveal_strlit("");
                assert(""@ =~= Seq::<char>::empty());
            }
            r
        },
    }
}

/// `p` is one of the paths in `existing`.
pub open spec fn taken(existing: Seq<String>, p: Seq<char>) -> bool {
    exists|k: int| 0 <= k < existing.len() && existing[k]@ == p
}

pub open spec fn or_empty(o: Option<Seq<char>>) -> Seq<char> {
    match o {
        Some(s) => s,
        None => Seq::empty(),
    }
}

/// `stem_i.ext` (or `stem_i` without an extension) for the file of `src`.
pub open spec fn suffixed_name(src: Seq<char>, i: nat) -> Seq<char> {
    or_empty(file_stem_spec(src)) + seq!['_'] + decimal(i) + match extension_spec(src) {
        Some(e) => seq!['.'] + e,
        None => Seq::empty(),
    }
}

/// The `i`-th place tried for `src` in `inbox`: its own name first, then numbered names.
pub open spec fn candidate(inbox: Seq<char>, src: Seq<char>, i: nat) -> Seq<char> {
    if i == 0 {
        join_spec(inbox, or_empty(file_name_spec(src)))
    } else {
        join_spec(inbox, suffixed_name(src, i))
    }
}

/// What `join_spec(base, rest)` puts before a relative, non-empty `rest`.
pub open spec fn join_prefix(base: Seq<char>) -> Seq<char> {
    if base.len() == 0 {
        Seq::empty()
    } else if base.last() == '/' {
        base
    } else {
        base + seq!['/']
    }
}

proof fn lemma_join_relative(base: Seq<char>, rest: Seq<char>)
    requires
        rest.len() > 0,
        rest[0] != '/',
    ensures
        join_spec(base, rest) == join_prefix(base) + rest,
{
    if base.len() == 0 {
        assert(Seq::<char>::empty() + rest =~= rest);
    }
}

/// The stem of a file has no separator in it.
proof fn lemma_stem_no_sep(src: Seq<char>)
    ensures
        forall|j: int| 0 <= j < or_empty(file_stem_spec(src)).len() ==> #[trigger] or_empty(file_stem_spec(src))[j] != '/',
{
    match file_name_spec(src) {
        Some(n) => {
            let t = trim_end(src);
            crate::paths::lemma_last_index_pub(t, '/', t.len() as int);
            crate::paths::lemma_trimmed_len_pub(src, src.len() as int);
            let st = segment_start(src);
            assert forall|j: int| 0 <= j < n.len() implies n[j] != '/' by {
                assert(n[j] == t[st + j]);
            }
            let d = last_index_of(n, '.', n.len() as int);
            crate::paths::lemma_last_index_pub(n, '.', n.len() as int);
            let stem = split_dot(n).0;
            assert forall|j: int| 0 <= j < stem.len() implies stem[j] != '/' by {
                assert(stem[j] == n[j]);
            }
        },
        None => {},
    }
}

/// Numbered names for different numbers are different places.
proof fn lemma_candidate_injective(inbox: Seq<char>, src: Seq<char>, i: nat, j: nat)
    requires
        i >= 1,
        j >= 1,
        candidate(inbox, src, i) == candidate(inbox, src, j),
    ensures
        i == j,
{
    let stem = or_empty(file_stem_spec(src));
    let tail = match extension_spec(src) {
        Some(e) => seq!['.'] + e,
        None => Seq::<char>::empty(),
    };
    lemma_stem_no_sep(src);
    crate::text::lemma_decimal_digits(i);
    crate::text::lemma_decimal_digits(j);
    let a = suffixed_name(src, i);
    let b = suffixed_name(src, j);
    assert(a[0] != '/') by {
        if stem.len() > 0 {
            assert(a[0] == stem[0]);
        } else {
            assert(a[0] == '_');
        }
    }
    assert(b[0] != '/') by {
        if stem.len() > 0 {
            assert(b[0] == stem[0]);
        } else {
            assert(b[0] == '_');
        }
    }
    lemma_join_relative(inbox, a);
    lemma_join_relative(inbox, b);
    let p = join_prefix(inbox);
    let l = p.len() + stem.len() + 1;
    let di = decimal(i);
    let dj = decimal(j);
    assert(p + a == p + b);
    assert(a =~= (p + a).subrange(p.len() as int, (p + a).len() as int));
    assert(b =~= (p + b).subrange(p.len() as int, (p + b).len() as int));
    assert(a == b);
    assert(a =~= stem + seq!['_'] + di + tail);
    assert(b =~= stem + seq!['_'] + dj + tail);
    assert(di.len() == dj.len());
    assert(di =~= a.subrange(stem.len() as int + 1, stem.len() as int + 1 + di.len() as int));
    assert(dj =~= b.subrange(stem.len() as int + 1, stem.len() as int + 1 + dj.len() as int));
    crate::text::lemma_decimal_injective(i, j);
}

/// If every numbered place up to `m` is taken, there are at least `m` taken paths.
proof fn lemma_numbered_places_bound(inbox: Seq<char>, src: Seq<char>, existing: Seq<String>, m: nat)
    requires
        forall|j: nat| 1 <= j <= m ==> taken(existing, #[trigger] candidate(inbox, src, j)),
    ensures
        m <= existing.len(),
{
    broadcast use vstd::seq_lib::seq_to_set_is_finite;

    let q = Seq::new(m, |k: int| candidate(inbox, src, (k + 1) as nat));
    let views = existing.map_values(|s: String| s@);
    assert forall|a: int, b: int| 0 <= a < q.len() && 0 <= b < q.len() && a != b implies q[a] != q[b] by {
        if q[a] == q[b] {
            lemma_candidate_injective(inbox, src, (a + 1) as nat, (b + 1) as nat);
        }
    }
    assert forall|k: int| 0 <= k < q.len() implies views.to_set().contains(#[trigger] q[k]) by {
        let j = (k + 1) as nat;
        assert(taken(existing, candidate(inbox, src, j)));
        let e = choose|e: int| 0 <= e < existing.len() && existing[e]@ == candidate(inbox, src, j);
        assert(views[e] == q[k]);
    }
    lemma_distinct_within(q, views.to_set());
    views.lemma_cardinality_of_set();
}

fn is_taken(existing: &[String], p: &String) -> (r: bool)
    ensures
        r == taken(existing@, p@),
{
    let mut k: usize = 0;
    while k < existing.len()
        invariant
            k <= existing@.len(),
            forall|e: int| 0 <= e < k ==> existing@[e]@ != p@,
        decreases existing@.len() - k,
    {
        if existing[k] == *p {
            return true;
        }
        k += 1;
    }
    false
}

fn numbered_name(stem: &Vec<char>, ext: &Option<Vec<char>>, i: u128) -> (r: Vec<char>)
    ensures
        r@ == stem@ + seq!['_'] + decimal(i as nat) + match ext {
            Some(e) => seq!['.'] + e@,
            None => Seq::<char>::empty(),
        },
{
    let mut r: Vec<char> = Vec::new();
    extend_chars(&mut r, stem);
    r.push('_');
    let d = decimal_chars(i);
    extend_chars(&mut r, &d);
    match ext {
        Some(e) => {
            r.push('.');
            extend_chars(&mut r, e);
            proof {
                assert(r@ =~= stem@ + seq!['_'] + decimal(i as nat) + (seq!['.'] + e@));
            }
        },
        None => {
            proof {
                assert(r@ =~= stem@ + seq!['_'] + decimal(i as nat) + Seq::<char>::empty());
            }
        },
    }
    r
}

/// Where to put `src` in `inbox`, given the paths that already exist there: its own
/// name if free, else the first free of `stem_1.ext`, `stem_2.ext`, ...
pub fn resolve_dest(inbox: &str, src: &str, existing: &[String]) -> (r: String)
    ensures
        exists|i: nat|
            r@ == #[trigger] candidate(inbox@, src@, i) && !taken(existing@, r@) && forall|j: nat|
                j < i ==> taken(existing@, #[trigger] candidate(inbox@, src@, j)),
{
    let name = match file_name(src) {
        Some(n) => n,
        None => String::new(),
    };
    let first = join(inbox, name.as_str());
    proof {
        assert(first@ == candidate(inbox@, src@, 0));
    }
    if !is_taken(existing, &first) {
        return first;
    }
    let stem = match file_stem(src) {
        Some(s) => chars_of(s.as_str()),
        None => Vec::new(),
    };
    let ext = match extension(src) {
        Some(e) => Some(chars_of(e.as_str())),
        None => None,
    };
    let total = existing.len();
    let mut i: u128 = 1;
    loop
        invariant
            total == existing@.len(),
            1 <= i,
            i <= existing@.len() + 1,
            stem@ == or_empty(file_stem_spec(src@)),
            match extension_spec(src@) {
                Some(e) => ext matches Some(x) && x@ == e,
                None => ext is None,
            },
            forall|j: nat| j < i ==> taken(existing@, #[trigger] candidate(inbox@, src@, j)),
        decreases existing@.len() + 1 - i,
    {
        let n = numbered_name(&stem, &ext, i);
        let cand = join(inbox, string_of(&n).as_str());
        proof {
            assert(n@ =~= suffixed_name(src@, i as nat));
            assert(cand@ == candidate(inbox@, src@, i as nat));
        }
        if !is_taken(existing, &cand) {
            return cand;
        }
        proof {
            assert forall|j: nat| 1 <= j <= i implies taken(existing@, #[trigger] candidate(inbox@, src@, j)) by {}
            lemma_numbered_places_bound(inbox@, src@, existing@, i as nat);
            assert(i <= total);
        }
        i += 1;
    }
}

} // verus!
