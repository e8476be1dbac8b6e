use vstd::prelude::*;

verus! {

/// Whether two strings are the same.
pub fn str_eq(a: &str, b: &str) -> (r: bool)
    ensures
        r == (a@ == b@),
{
    a.to_owned() == b.to_owned()
}


/// The characters of `s`, in order.
pub fn chars_of(s: &str) -> (v: Vec<char>)
    ensures
        v@ == s@,
{
    let mut v: Vec<char> = Vec::new();
    for c in it: s.chars()
        invariant
            v@ == it.seq().take(it.index() as int),
    {
        v.push(c);
    }
    v
}


/// Appends `c` to `s` (`String::push`).
#[verifier::external_body]
pub(crate) fn push_char(s: &mut String, c: char)
    ensures
        final(s)@ == old(s)@.push(c),
{
    s.push(c);
}

/// `s` in lowercase as `str::to_lowercase` gives it, by the Unicode lowercase mapping.
pub uninterp spec fn lowercase(s: Seq<char>) -> Seq<char>;

/// `s` in lowercase (`str::to_lowercase`). The Unicode mapping it applies is named, not
/// spelled out: it depends on `s` alone.
#[verifier::external_body]
pub(crate) fn to_lowercase(s: &str) -> (r: String)
    ensures
        r@ == lowercase(s@),
{
    s.to_lowercase()
}

/// The string made of the characters of `v`.
pub fn string_of(v: &Vec<char>) -> (s: String)
    ensures
        s@ == v@,
{
    let mut s = String::new();
    let mut i: usize = 0;
    while i < v.len()
        invariant
            i <= v@.len(),
            s@ == v@.subrange(0, i as int),
        decreases v@.len() - i,
    {
        push_char(&mut s, v[i]);
        proof {
            assert(v@.subrange(0, i as int + 1) =~= v@.subrange(0, i as int).push(v@[i as int]));
        }
        i += 1;
    }
    proof {
        assert(v@.subrange(0, v@.len() as int) =~= v@);
    }
    s
}

/// A copy of `s` (`str::to_owned`).
pub fn owned(s: &str) -> (r: String)
    ensures
        r@ == s@,
{
    s.to_owned()
}

/// Appends the characters of `t` to `v`.
pub fn extend_chars(v: &mut Vec<char>, t: &Vec<char>)
    ensures
        final(v)@ == old(v)@ + t@,
{
    let mut i: usize = 0;
    while i < t.len()
        invariant
            i <= t@.len(),
            v@ == old(v)@ + t@.subrange(0, i as int),
        decreases t@.len() - i,
    {
        v.push(t[i]);
        proof {
            assert(t@.subrange(0, i as int + 1) =~= t@.subrange(0, i as int).push(t@[i as int]));
        }
        i += 1;
    }
    proof {
        assert(t@.subrange(0, t@.len() as int) =~= t@);
    }
}

/// Characters `from..to` of `v`.
pub fn slice_chars(v: &Vec<char>, from: usize, to: usize) -> (r: Vec<char>)
    requires
        from <= to <= v@.len(),
    ensures
        r@ == v@.subrange(from as int, to as int),
{
    let mut r: Vec<char> = Vec::new();
    let mut i = from;
    while i < to
        invariant
            from <= i <= to,
            to <= v@.len(),
            r@ == v@.subrange(from as int, i as int),
        decreases to - i,
    {
        r.push(v[i]);
        proof {
            assert(v@.subrange(from as int, i as int + 1) =~= v@.subrange(from as int, i as int).push(v@[i as int]));
        }
        i += 1;
    }
    r
}

/// The decimal digit for `d`.
pub open spec fn digit_char(d: nat) -> char {
    if d == 0 {
        '0'
    } else if d == 1 {
        '1'
    } else if d == 2 {
        '2'
    } else if d == 3 {
        '3'
    } else if d == 4 {
        '4'
    } else if d == 5 {
        '5'
    } else if d == 6 {
        '6'
    } else if d == 7 {
        '7'
    } else if d == 8 {
        '8'
    } else {
        '9'
    }
}

/// The decimal numeral of `n`, without leading zeros.
pub open spec fn decimal(n: nat) -> Seq<char>
    decreases n,
{
    if n < 10 {
        seq![digit_char(n)]
    } else {
        decimal(n / 10).push(digit_char(n % 10))
    }
}

pub open spec fn is_digit(c: char) -> bool {
    '0' <= c && c <= '9'
}

proof fn lemma_digit_char(d: nat)
    requires
        d < 10,
    ensures
        is_digit(digit_char(d)),
        forall|e: nat| e < 10 && digit_char(e) == digit_char(d) ==> e == d,
{
}

pub proof fn lemma_decimal_digits(n: nat)
    ensures
        decimal(n).len() >= 1,
        forall|i: int| 0 <= i < decimal(n).len() ==> is_digit(#[trigger] decimal(n)[i]),
    decreases n,
{
    if n >= 10 {
        lemma_decimal_digits(n / 10);
        lemma_digit_char(n % 10);
    } else {
        lemma_digit_char(n);
    }
}

/// Different numbers have different numerals.
pub proof fn lemma_decimal_injective(a: nat, b: nat)
    requires
        decimal(a) == decimal(b),
    ensures
        a == b,
    decreases a,
{
    lemma_decimal_digits(a);
    lemma_decimal_digits(b);
    if a < 10 && b < 10 {
        lemma_digit_char(a);
        lemma_digit_char(b);
        assert(decimal(a)[0] == digit_char(a));
        assert(decimal(b)[0] == digit_char(b));
    } else if a >= 10 && b >= 10 {
        let da = decimal(a);
        let db = decimal(b);
        assert(da.drop_last() =~= decimal(a / 10));
        assert(db.drop_last() =~= decimal(b / 10));
        lemma_decimal_injective(a / 10, b / 10);
        lemma_digit_char(a % 10);
        lemma_digit_char(b % 10);
        assert(da.last() == digit_char(a % 10));
        assert(db.last() == digit_char(b % 10));
        assert(digit_char(a % 10) == digit_char(b % 10));
        assert(a % 10 == b % 10);
        assert(a == (a / 10) * 10 + a % 10);
        assert(b == (b / 10) * 10 + b % 10);
    } else if a < 10 {
        lemma_decimal_digits(b / 10);
        assert(decimal(a).len() == 1);
        assert(decimal(b).len() >= 2);
    } else {
        lemma_decimal_digits(a / 10);
        assert(decimal(b).len() == 1);
        assert(decimal(a).len() >= 2);
    }
}

fn digit_of(d: u128) -> (c: char)
    requires
        d < 10,
    ensures
        c == digit_char(d as nat),
{
    if d == 0 {
        '0'
    } else if d == 1 {
        '1'
    } else if d == 2 {
        '2'
    } else if d == 3 {
        '3'
    } else if d == 4 {
        '4'
    } else if d == 5 {
        '5'
    } else if d == 6 {
        '6'
    } else if d == 7 {
        '7'
    } else if d == 8 {
        '8'
    } else {
        '9'
    }
}

/// The decimal numeral of `n`.
pub fn decimal_chars(n: u128) -> (r: Vec<char>)
    ensures
        r@ == decimal(n as nat),
    decreases n,
{
    if n < 10 {
        let mut r = Vec::new();
        r.push(digit_of(n));
        proof {
            assert(r@ =~= seq![digit_char(n as nat)]);
        }
        r
    } else {
        let mut r = decimal_chars(n / 10);
        r.push(digit_of(n % 10));
        r
    }
}

/// The decimal numeral of `n`, as a string.
pub fn decimal_string(n: u128) -> (r: String)
    ensures
        r@ == decimal(n as nat),
{
    string_of(&decimal_chars(n))
}


/// The concatenation of `a` and `b`.
pub fn concat(a: &str, b: &str) -> (r: String)
    ensures
        r@ == a@ + b@,
{
    let mut v = chars_of(a);
    let w = chars_of(b);
    extend_chars(&mut v, &w);
    string_of(&v)
}

/// Whether `pat` occurs in `s` at position `i`.
pub open spec fn occurs_at(s: Seq<char>, pat: Seq<char>, i: int) -> bool {
    0 <= i && i + pat.len() <= s.len() && s.subrange(i, i + pat.len()) == pat
}

/// `s` with every occurrence of `pat` replaced by `rep`, scanning from the left and
/// never re-reading replaced text (`str::replace`); an empty `pat` occurs before every
/// character and at the end, so `rep` goes there.
pub open spec fn replaced(s: Seq<char>, pat: Seq<char>, rep: Seq<char>) -> Seq<char>
    decreases s.len(),
{
    if pat.len() == 0 {
        if s.len() == 0 {
            rep
        } else {
            rep + seq![s[0]] + replaced(s.subrange(1, s.len() as int), pat, rep)
        }
    } else if s.len() == 0 {
        s
    } else if occurs_at(s, pat, 0) {
        rep + replaced(s.subrange(pat.len() as int, s.len() as int), pat, rep)
    } else {
        seq![s[0]] + replaced(s.subrange(1, s.len() as int), pat, rep)
    }
}

fn occurs_at_exec(s: &Vec<char>, pat: &Vec<char>, i: usize) -> (r: bool)
    ensures
        r == occurs_at(s@, pat@, i as int),
{
    if i > s.len() || pat.len() > s.len() - i {
        return false;
    }
    let n = s.len();
    let mut k: usize = 0;
    while k < pat.len()
        invariant
            k <= pat@.len(),
            n == s@.len(),
            i + pat@.len() <= n,
            forall|j: int| 0 <= j < k ==> s@[i + j] == pat@[j],
        decreases pat@.len() - k,
    {
        if s[i + k] != pat[k] {
            proof {
                assert(s@.subrange(i as int, i + pat@.len())[k as int] != pat@[k as int]);
            }
            return false;
        }
        k += 1;
    }
    proof {
        assert(s@.subrange(i as int, i + pat@.len()) =~= pat@);
    }
    true
}

/// `s` with every occurrence of `pat` replaced by `rep` (`str::replace`).
pub fn replace_all(s: &str, pat: &str, rep: &str) -> (r: String)
    ensures
        r@ == replaced(s@, pat@, rep@),
{
    let sv = chars_of(s);
    let pv = chars_of(pat);
    let rv = chars_of(rep);
    let mut out: Vec<char> = Vec::new();
    let mut i: usize = 0;
    if pv.len() == 0 {
        proof {
            assert(sv@.subrange(0, sv@.len() as int) =~= sv@);
            assert(out@ + replaced(sv@, pv@, rv@) =~= replaced(sv@, pv@, rv@));
        }
        while i < sv.len()
            invariant
                i <= sv@.len(),
                sv@ == s@,
                pv@ == pat@,
                rv@ == rep@,
                pat@.len() == 0,
                out@ + replaced(sv@.subrange(i as int, sv@.len() as int), pv@, rv@) == replaced(s@, pat@, rep@),
            decreases sv@.len() - i,
        {
            let ghost rest = sv@.subrange(i as int, sv@.len() as int);
            proof {
                assert(rest.subrange(1, rest.len() as int) =~= sv@.subrange(i + 1, sv@.len() as int));
                assert(out@ + rv@ + seq![sv@[i as int]] + replaced(sv@.subrange(i + 1, sv@.len() as int), pv@, rv@)
                    =~= out@ + replaced(rest, pv@, rv@));
            }
            let ghost before = out@;
            extend_chars(&mut out, &rv);
            out.push(sv[i]);
            assert(out@ =~= before + rv@ + seq![sv@[i as int]]);
            i = i + 1;
        }
        proof {
            assert(sv@.subrange(i as int, sv@.len() as int) =~= Seq::<char>::empty());
        }
        extend_chars(&mut out, &rv);
        return string_of(&out);
    }
    proof {
        assert(sv@.subrange(0, sv@.len() as int) =~= sv@);
        assert(out@ + replaced(sv@, pv@, rv@) =~= replaced(sv@, pv@, rv@));
    }
    while i < sv.len()
        invariant
            i <= sv@.len(),
            sv@ == s@,
            pv@ == pat@,
            rv@ == rep@,
            pat@.len() > 0,
            out@ + replaced(sv@.subrange(i as int, sv@.len() as int), pv@, rv@) == replaced(s@, pat@, rep@),
        decreases sv@.len() - i,
    {
        let ghost rest = sv@.subrange(i as int, sv@.len() as int);
        if occurs_at_exec(&sv, &pv, i) {
            proof {
                assert(rest.subrange(0, pv@.len() as int) =~= sv@.subrange(i as int, i + pv@.len()));
                assert(occurs_at(rest, pv@, 0));
                assert(rest.subrange(pv@.len() as int, rest.len() as int)
                    =~= sv@.subrange(i + pv@.len(), sv@.len() as int));
                assert(out@ + rv@ + replaced(sv@.subrange(i + pv@.len(), sv@.len() as int), pv@, rv@)
                    =~= out@ + replaced(rest, pv@, rv@));
            }
            extend_chars(&mut out, &rv);
            i = i + pv.len();
        } else {
            proof {
                if occurs_at(rest, pv@, 0) {
                    assert(rest.subrange(0, pv@.len() as int) =~= sv@.subrange(i as int, i + pv@.len()));
                }
                assert(!occurs_at(rest, pv@, 0));
                assert(rest.subrange(1, rest.len() as int) =~= sv@.subrange(i + 1, sv@.len() as int));
                assert(out@.push(sv@[i as int]) + replaced(sv@.subrange(i + 1, sv@.len() as int), pv@, rv@)
                    =~= out@ + replaced(rest, pv@, rv@));
            }
            out.push(sv[i]);
            i = i + 1;
        }
    }
    proof {
        assert(sv@.subrange(i as int, sv@.len() as int) =~= Seq::<char>::empty());
        assert(out@ + Seq::<char>::empty() =~= out@);
    }
    string_of(&out)
}

/// `c` in lower case, for ASCII letters; other characters are kept.
pub open spec fn ascii_lower(c: char) -> char {
    if 'A' <= c && c <= 'Z' {
        ((c as u32) + 32) as char
    } else {
        c
    }
}

fn ascii_lower_exec(c: char) -> (r: char)
    ensures
        r == ascii_lower(c),
{
    if 'A' <= c && c <= 'Z' {
        let n: u8 = ((c as u32) + 32) as u8;
        n as char
    } else {
        c
    }
}

/// Whether `a` and `b` are equal up to the case of ASCII letters (`str::eq_ignore_ascii_case`).
pub open spec fn eq_ignore_case(a: Seq<char>, b: Seq<char>) -> bool {
    a.len() == b.len() && forall|i: int| 0 <= i < a.len() ==> ascii_lower(#[trigger] a[i]) == ascii_lower(b[i])
}

pub fn eq_ignore_ascii_case(a: &str, b: &str) -> (r: bool)
    ensures
        r == eq_ignore_case(a@, b@),
{
    let av = chars_of(a);
    let bv = chars_of(b);
    if av.len() != bv.len() {
        return false;
    }
    let mut i: usize = 0;
    while i < av.len()
        invariant
            i <= av@.len(),
            av@.len() == bv@.len(),
            av@ == a@,
            bv@ == b@,
            forall|j: int| 0 <= j < i ==> ascii_lower(#[trigger] av@[j]) == ascii_lower(bv@[j]),
        decreases av@.len() - i,
    {
        if ascii_lower_exec(av[i]) != ascii_lower_exec(bv[i]) {
            return false;
        }
        i += 1;
    }
    true
}

/// Whether `s` starts with `pre`.
pub open spec fn starts_with(s: Seq<char>, pre: Seq<char>) -> bool {
    pre.len() <= s.len() && s.subrange(0, pre.len() as int) == pre
}

/// `s` without the prefix `pre`, where it has it (`str::strip_prefix`).
pub fn strip_prefix(s: &str, pre: &str) -> (r: Option<String>)
    ensures
        r.is_some() == starts_with(s@, pre@),
        r.is_some() ==> r.unwrap()@ == s@.subrange(pre@.len() as int, s@.len() as int),
{
    let sv = chars_of(s);
    let pv = chars_of(pre);
    if occurs_at_exec(&sv, &pv, 0) {
        let rest = slice_chars(&sv, pv.len(), sv.len());
        Some(string_of(&rest))
    } else {
        None
    }
}

} // verus!
