//! Character-level text utilities shared by the normaliser and the matcher.
//!
//! Executable code works on `Vec<char>` so that every step has an exact
//! specification over `Seq<char>`; conversion to and from `String` happens at
//! the module boundaries.

use vstd::prelude::*;
use vstd::string::StrSliceExecFns;

verus! {

/// Appends one character to a string.
///
/// Relies on `String::push`, which appends the given `char` to the end of
/// the string.
#[verifier::external_body]
pub fn push_char(s: &mut String, c: char)
    ensures
        final(s)@ == old(s)@.push(c),
{
    s.push(c);
}

/// The characters of a string, one element per `char`.
pub fn chars_of(s: &str) -> (r: Vec<char>)
    ensures
        r@ == s@,
{
    let n = s.unicode_len();
    let mut v: Vec<char> = Vec::new();
    let mut i: usize = 0;
    while i < n
        invariant
            n == s@.len(),
            i <= n,
            v@ == s@.take(i as int),
        decreases n - i,
    {
        let c = s.get_char(i);
        v.push(c);
        proof {
            assert(s@.take(i + 1 as int) =~= s@.take(i as int).push(s@[i as int]));
        }
        i += 1;
    }
    proof {
        assert(s@.take(n as int) =~= s@);
    }
    v
}

/// A string holding exactly the given characters.
pub fn string_of(v: &Vec<char>) -> (r: String)
    ensures
        r@ == v@,
{
    let mut s = String::new();
    let mut i: usize = 0;
    while i < v.len()
        invariant
            i <= v@.len(),
            s@ == v@.take(i as int),
        decreases v@.len() - i,
    {
        push_char(&mut s, v[i]);
        proof {
            assert(v@.take(i + 1 as int) =~= v@.take(i as int).push(v@[i as int]));
        }
        i += 1;
    }
    proof {
        assert(v@.take(v@.len() as int) =~= v@);
    }
    s
}

/// The characters that permissive decoding reads out of a byte string:
/// valid UTF-8 passes through and each invalid sequence becomes the
/// replacement character.  The value depends on the bytes alone.
pub uninterp spec fn lossy_decode(bytes: Seq<u8>) -> Seq<char>;

/// Relies on `String::from_utf8_lossy`: the result is a function of the
/// bytes alone; valid UTF-8 — in particular plain ASCII — passes through
/// unchanged, and invalid sequences become U+FFFD.
#[verifier::external_body]
pub fn decode_lossy(b: &[u8]) -> (r: String)
    ensures
        r@ == lossy_decode(b@),
        (forall|i: int| 0 <= i < b@.len() ==> b@[i] < 0x80) ==> r@ == b@.map_values(
            |x: u8| x as char,
        ),
{
    String::from_utf8_lossy(b).into_owned()
}

/// The view of an optional string.
pub open spec fn view_opt_str(o: Option<String>) -> Option<Seq<char>> {
    match o {
        Some(s) => Some(s@),
        None => None,
    }
}

/// The view of an optional byte string.
pub open spec fn view_opt_bytes(o: Option<Vec<u8>>) -> Option<Seq<u8>> {
    match o {
        Some(b) => Some(b@),
        None => None,
    }
}

/// The position of the first `c` in `s`, if any.
pub open spec fn index_of_char(s: Seq<char>, c: char) -> Option<int>
    decreases s.len(),
{
    if s.len() == 0 {
        None
    } else if s[0] == c {
        Some(0int)
    } else {
        match index_of_char(s.drop_first(), c) {
            Some(i) => Some(i + 1),
            None => None,
        }
    }
}

proof fn lemma_index_of_char_found(s: Seq<char>, c: char, i: int)
    requires
        0 <= i < s.len(),
        s[i] == c,
        forall|j: int| 0 <= j < i ==> s[j] != c,
    ensures
        index_of_char(s, c) == Some(i),
    decreases i,
{
    if i > 0 {
        lemma_index_of_char_found(s.drop_first(), c, i - 1);
    }
}

proof fn lemma_index_of_char_none(s: Seq<char>, c: char)
    requires
        forall|j: int| 0 <= j < s.len() ==> s[j] != c,
    ensures
        index_of_char(s, c) is None,
    decreases s.len(),
{
    if s.len() > 0 {
        lemma_index_of_char_none(s.drop_first(), c);
    }
}

/// The position of the first `c` in `v`, if any.
pub fn find_char(v: &Vec<char>, c: char) -> (r: Option<usize>)
    ensures
        match r {
            Some(i) => i < v@.len() && v@[i as int] == c && (forall|j: int|
                0 <= j < i ==> v@[j] != c) && index_of_char(v@, c) == Some(i as int),
            None => (forall|j: int| 0 <= j < v@.len() ==> v@[j] != c) && index_of_char(
                v@,
                c,
            ) is None,
        },
{
    let mut i: usize = 0;
    while i < v.len()
        invariant
            i <= v@.len(),
            forall|j: int| 0 <= j < i ==> v@[j] != c,
        decreases v@.len() - i,
    {
        if v[i] == c {
            proof {
                lemma_index_of_char_found(v@, c, i as int);
            }
            return Some(i);
        }
        i += 1;
    }
    proof {
        lemma_index_of_char_none(v@, c);
    }
    None
}

/// The whitespace characters the normaliser strips at the ends of a date
/// string.
pub open spec fn is_space(c: char) -> bool {
    c == ' ' || c == '\t' || c == '\r' || c == '\n'
}

/// `s` without its leading whitespace.
pub open spec fn trim_front_spec(s: Seq<char>) -> Seq<char>
    decreases s.len(),
{
    if s.len() > 0 && is_space(s[0]) {
        trim_front_spec(s.drop_first())
    } else {
        s
    }
}

/// `s` without its trailing whitespace.
pub open spec fn trim_back_spec(s: Seq<char>) -> Seq<char>
    decreases s.len(),
{
    if s.len() > 0 && is_space(s.last()) {
        trim_back_spec(s.drop_last())
    } else {
        s
    }
}

/// `s` without leading or trailing whitespace.
pub open spec fn trim_spec(s: Seq<char>) -> Seq<char> {
    trim_back_spec(trim_front_spec(s))
}

/// The characters `from..to` of `v`.
pub fn sub_vec(v: &Vec<char>, from: usize, to: usize) -> (r: Vec<char>)
    requires
        from <= to <= v@.len(),
    ensures
        r@ == v@.subrange(from as int, to as int),
{
    let mut r: Vec<char> = Vec::new();
    let mut i: usize = from;
    while i < to
        invariant
            from <= i <= to <= v@.len(),
            r@ == v@.subrange(from as int, i as int),
        decreases to - i,
    {
        r.push(v[i]);
        proof {
            assert(v@.subrange(from as int, i + 1 as int) =~= v@.subrange(
                from as int,
                i as int,
            ).push(v@[i as int]));
        }
        i += 1;
    }
    r
}

/// `v` without leading or trailing whitespace.
pub fn trim(v: &Vec<char>) -> (r: Vec<char>)
    ensures
        r@ == trim_spec(v@),
{
    proof {
        assert(v@.skip(0) =~= v@);
    }
    let mut a: usize = 0;
    while a < v.len() && is_space_char(v[a])
        invariant
            a <= v@.len(),
            trim_front_spec(v@) == trim_front_spec(v@.skip(a as int)),
        decreases v@.len() - a,
    {
        proof {
            assert(v@.skip(a as int).drop_first() =~= v@.skip(a + 1 as int));
        }
        a += 1;
    }
    proof {
        assert(trim_front_spec(v@.skip(a as int)) == v@.skip(a as int));
    }
    proof {
        assert(v@.skip(a as int) =~= v@.subrange(a as int, v@.len() as int));
    }
    let mut b: usize = v.len();
    while b > a && is_space_char(v[b - 1])
        invariant
            a <= b <= v@.len(),
            trim_back_spec(v@.skip(a as int)) == trim_back_spec(v@.subrange(a as int, b as int)),
            trim_front_spec(v@) == v@.skip(a as int),
        decreases b,
    {
        proof {
            assert(v@.subrange(a as int, b as int).drop_last() =~= v@.subrange(
                a as int,
                b - 1 as int,
            ));
        }
        b -= 1;
    }
    proof {
        assert(trim_back_spec(v@.subrange(a as int, b as int)) == v@.subrange(a as int, b as int));
    }
    sub_vec(v, a, b)
}

/// Whether `c` is one of the stripped whitespace characters.
pub fn is_space_char(c: char) -> (r: bool)
    ensures
        r == is_space(c),
{
    c == ' ' || c == '\t' || c == '\r' || c == '\n'
}

/// Whether two strings hold the same characters.
pub fn str_eq(a: &str, b: &str) -> (r: bool)
    ensures
        r == (a@ == b@),
{
    let an = a.unicode_len();
    let bn = b.unicode_len();
    if an != bn {
        return false;
    }
    let mut i: usize = 0;
    while i < an
        invariant
            an == a@.len(),
            an == b@.len(),
            i <= an,
            forall|j: int| 0 <= j < i ==> a@[j] == b@[j],
        decreases an - i,
    {
        if a.get_char(i) != b.get_char(i) {
            return false;
        }
        i += 1;
    }
    proof {
        assert(a@ =~= b@);
    }
    true
}

/// Whether two character vectors hold the same characters.
pub fn vec_chars_eq(a: &Vec<char>, b: &Vec<char>) -> (r: bool)
    ensures
        r == (a@ == b@),
{
    if a.len() != b.len() {
        return false;
    }
    let mut i: usize = 0;
    while i < a.len()
        invariant
            a@.len() == b@.len(),
            i <= a@.len(),
            forall|j: int| 0 <= j < i ==> a@[j] == b@[j],
        decreases a@.len() - i,
    {
        if a[i] != b[i] {
            return false;
        }
        i += 1;
    }
    proof {
        assert(a@ =~= b@);
    }
    true
}

/// Whether a character vector holds exactly the characters of a string.
pub fn chars_eq_str(v: &Vec<char>, s: &str) -> (r: bool)
    ensures
        r == (v@ == s@),
{
    let n = s.unicode_len();
    if v.len() != n {
        return false;
    }
    let mut i: usize = 0;
    while i < n
        invariant
            n == s@.len(),
            n == v@.len(),
            i <= n,
            forall|j: int| 0 <= j < i ==> v@[j] == s@[j],
        decreases n - i,
    {
        if v[i] != s.get_char(i) {
            return false;
        }
        i += 1;
    }
    proof {
        assert(v@ =~= s@);
    }
    true
}

/// Whether `pat` occurs in `s` starting at index `i`.
pub open spec fn match_at(s: Seq<char>, pat: Seq<char>, i: int) -> bool {
    0 <= i && i + pat.len() <= s.len() && s.subrange(i, i + pat.len()) == pat
}

/// Whether `pat` occurs anywhere in `s`.
pub open spec fn contains_spec(s: Seq<char>, pat: Seq<char>) -> bool {
    exists|i: int| match_at(s, pat, i)
}

/// Whether `pat` is a prefix of `s`.
pub open spec fn starts_with_spec(s: Seq<char>, pat: Seq<char>) -> bool {
    pat.len() <= s.len() && s.take(pat.len() as int) == pat
}

/// Whether `pat` is a suffix of `s`.
pub open spec fn ends_with_spec(s: Seq<char>, pat: Seq<char>) -> bool {
    pat.len() <= s.len() && s.skip(s.len() - pat.len()) == pat
}

/// Whether the characters of `v` at `i..i + pat.len()` equal `pat`.
pub fn match_at_exec(v: &Vec<char>, pat: &Vec<char>, i: usize) -> (r: bool)
    requires
        i + pat@.len() <= v@.len(),
    ensures
        r == match_at(v@, pat@, i as int),
{
    let n = v.len();
    let mut j: usize = 0;
    while j < pat.len()
        invariant
            n == v@.len(),
            i + pat@.len() <= v@.len(),
            j <= pat@.len(),
            forall|k: int| 0 <= k < j ==> v@[i + k] == pat@[k],
        decreases pat@.len() - j,
    {
        if v[i + j] != pat[j] {
            proof {
                assert(v@.subrange(i as int, i + pat@.len()) =~= pat@ ==> v@.subrange(
                    i as int,
                    i + pat@.len(),
                )[j as int] == pat@[j as int]);
            }
            return false;
        }
        j += 1;
    }
    proof {
        assert(v@.subrange(i as int, i + pat@.len()) =~= pat@);
    }
    true
}

/// Whether `pat` occurs anywhere in `v`.
pub fn contains(v: &Vec<char>, pat: &Vec<char>) -> (r: bool)
    ensures
        r == contains_spec(v@, pat@),
{
    if pat.len() > v.len() {
        return false;
    }
    if pat.len() == 0 {
        proof {
            assert(v@.subrange(0, 0) =~= pat@);
            assert(match_at(v@, pat@, 0));
        }
        return true;
    }
    let last = v.len() - pat.len();
    let mut i: usize = 0;
    while i <= last
        invariant
            0 < pat@.len() <= v@.len(),
            last == v@.len() - pat@.len(),
            last < usize::MAX,
            i <= last + 1,
            forall|k: int| 0 <= k < i ==> !match_at(v@, pat@, k),
        decreases last + 1 - i,
    {
        if match_at_exec(v, pat, i) {
            return true;
        }
        i += 1;
    }
    false
}

/// Whether `pat` is a prefix of `v`.
pub fn starts_with(v: &Vec<char>, pat: &Vec<char>) -> (r: bool)
    ensures
        r == starts_with_spec(v@, pat@),
{
    if pat.len() > v.len() {
        return false;
    }
    proof {
        assert(v@.take(pat@.len() as int) =~= v@.subrange(0, pat@.len() as int));
    }
    match_at_exec(v, pat, 0)
}

/// Whether `pat` is a suffix of `v`.
pub fn ends_with(v: &Vec<char>, pat: &Vec<char>) -> (r: bool)
    ensures
        r == ends_with_spec(v@, pat@),
{
    if pat.len() > v.len() {
        return false;
    }
    let start = v.len() - pat.len();
    proof {
        assert(v@.skip(v@.len() - pat@.len()) =~= v@.subrange(start as int, start + pat@.len()));
    }
    match_at_exec(v, pat, start)
}

/// `s` with every non-overlapping occurrence of `pat`, found left to right,
/// replaced by `rep`; the replacement text is not itself rescanned.
pub open spec fn replace_all_spec(s: Seq<char>, pat: Seq<char>, rep: Seq<char>) -> Seq<char>
    decreases s.len(),
{
    if pat.len() == 0 || s.len() < pat.len() {
        s
    } else if s.take(pat.len() as int) == pat {
        rep + replace_all_spec(s.skip(pat.len() as int), pat, rep)
    } else {
        seq![s[0]] + replace_all_spec(s.drop_first(), pat, rep)
    }
}

/// Appends all characters of `more` to `v`.
pub fn append_chars(v: &mut Vec<char>, more: &Vec<char>)
    ensures
        final(v)@ == old(v)@ + more@,
{
    let mut i: usize = 0;
    while i < more.len()
        invariant
            i <= more@.len(),
            v@ == old(v)@ + more@.take(i as int),
        decreases more@.len() - i,
    {
        v.push(more[i]);
        proof {
            assert(old(v)@ + more@.take(i + 1 as int) =~= (old(v)@ + more@.take(i as int)).push(
                more@[i as int],
            ));
        }
        i += 1;
    }
    proof {
        assert(old(v)@ + more@.take(more@.len() as int) =~= old(v)@ + more@);
    }
}

/// Replaces every occurrence of `pat` in `v` by `rep`, scanning left to
/// right without rescanning replacement text.
pub fn replace_all(v: &Vec<char>, pat: &Vec<char>, rep: &Vec<char>) -> (r: Vec<char>)
    requires
        pat@.len() > 0,
    ensures
        r@ == replace_all_spec(v@, pat@, rep@),
{
    let mut out: Vec<char> = Vec::new();
    let mut i: usize = 0;
    proof {
        assert(v@.skip(0) =~= v@);
    }
    while i < v.len()
        invariant
            pat@.len() > 0,
            i <= v@.len(),
            replace_all_spec(v@, pat@, rep@) == out@ + replace_all_spec(
                v@.skip(i as int),
                pat@,
                rep@,
            ),
        decreases v@.len() - i,
    {
        let ghost tail = v@.skip(i as int);
        let ghost out0 = out@;
        if pat.len() <= v.len() - i && match_at_exec(v, pat, i) {
            append_chars(&mut out, rep);
            proof {
                let rest = replace_all_spec(v@.skip(i + pat@.len()), pat@, rep@);
                assert(tail.take(pat@.len() as int) =~= v@.subrange(i as int, i + pat@.len()));
                assert(tail.skip(pat@.len() as int) =~= v@.skip(i + pat@.len()));
                assert(replace_all_spec(tail, pat@, rep@) == rep@ + rest);
                assert(out0 + (rep@ + rest) =~= (out0 + rep@) + rest);
            }
            i += pat.len();
        } else {
            out.push(v[i]);
            proof {
                assert(tail.drop_first() =~= v@.skip(i + 1));
                let rest = replace_all_spec(v@.skip(i + 1), pat@, rep@);
                if tail.len() < pat@.len() {
                    assert(replace_all_spec(tail, pat@, rep@) == tail);
                    assert(replace_all_spec(v@.skip(i + 1), pat@, rep@) == v@.skip(i + 1));
                    assert(out0 + tail =~= out0.push(v@[i as int]) + v@.skip(i + 1));
                } else {
                    assert(tail.take(pat@.len() as int) =~= v@.subrange(i as int, i + pat@.len()));
                    assert(tail.take(pat@.len() as int) != pat@);
                    assert(replace_all_spec(tail, pat@, rep@) == seq![tail[0]] + rest);
                    assert(out0 + (seq![tail[0]] + rest) =~= out0.push(v@[i as int]) + rest);
                }
            }
            i += 1;
        }
    }
    proof {
        assert(v@.skip(v@.len() as int) =~= Seq::<char>::empty());
        assert(replace_all_spec(Seq::<char>::empty(), pat@, rep@) == Seq::<char>::empty());
        assert(out@ + Seq::<char>::empty() =~= out@);
    }
    out
}

/// The views of a sequence of character vectors.
pub open spec fn views_of(ts: Seq<Vec<char>>) -> Seq<Seq<char>> {
    ts.map_values(|t: Vec<char>| t@)
}

/// The tokens of `s` that follow a partially read token `cur`: runs of
/// non-space characters, with `cur` extended by the first run.
pub open spec fn tokens_acc(s: Seq<char>, cur: Seq<char>) -> Seq<Seq<char>>
    decreases s.len(),
{
    if s.len() == 0 {
        if cur.len() == 0 {
            Seq::empty()
        } else {
            seq![cur]
        }
    } else if s[0] == ' ' {
        if cur.len() == 0 {
            tokens_acc(s.drop_first(), Seq::empty())
        } else {
            seq![cur] + tokens_acc(s.drop_first(), Seq::empty())
        }
    } else {
        tokens_acc(s.drop_first(), cur.push(s[0]))
    }
}

/// The maximal space-free runs of `s`, in order: splitting at spaces with
/// empty pieces dropped, which collapses repeated spaces.
pub open spec fn tokens_spec(s: Seq<char>) -> Seq<Seq<char>> {
    tokens_acc(s, Seq::empty())
}

/// The space-delimited tokens of `v`, repeated spaces collapsed.
pub fn split_tokens(v: &Vec<char>) -> (r: Vec<Vec<char>>)
    ensures
        views_of(r@) == tokens_spec(v@),
{
    let n = v.len();
    let mut out: Vec<Vec<char>> = Vec::new();
    let mut cur: Vec<char> = Vec::new();
    let mut i: usize = 0;
    proof {
        assert(v@.skip(0) =~= v@);
        assert(views_of(out@) + tokens_acc(v@, cur@) =~= tokens_acc(v@, cur@));
    }
    while i < n
        invariant
            n == v@.len(),
            i <= n,
            tokens_spec(v@) == views_of(out@) + tokens_acc(v@.skip(i as int), cur@),
        decreases n - i,
    {
        let ghost out0 = out@;
        let ghost cur0 = cur@;
        let ghost tail = v@.skip(i as int);
        proof {
            assert(tail.drop_first() =~= v@.skip(i + 1));
        }
        if v[i] == ' ' {
            if cur.len() > 0 {
                out.push(cur);
                cur = Vec::new();
                proof {
                    assert(tokens_acc(tail, cur0) == seq![cur0] + tokens_acc(
                        tail.drop_first(),
                        Seq::<char>::empty(),
                    ));
                    assert(views_of(out0.push(out@[out@.len() - 1])) =~= views_of(out0) + seq![
                        cur0,
                    ]);
                    assert(views_of(out0) + (seq![cur0] + tokens_acc(v@.skip(i + 1), cur@)) =~= (
                    views_of(out0) + seq![cur0]) + tokens_acc(v@.skip(i + 1), cur@));
                }
            } else {
                proof {
                    assert(cur0 =~= Seq::<char>::empty());
                    assert(tokens_acc(tail, cur0) == tokens_acc(
                        tail.drop_first(),
                        Seq::<char>::empty(),
                    ));
                }
            }
        } else {
            cur.push(v[i]);
            proof {
                assert(tokens_acc(tail, cur0) == tokens_acc(
                    tail.drop_first(),
                    cur0.push(tail[0]),
                ));
            }
        }
        i += 1;
    }
    proof {
        assert(v@.skip(n as int) =~= Seq::<char>::empty());
    }
    if cur.len() > 0 {
        let ghost out0 = out@;
        let ghost cur0 = cur@;
        out.push(cur);
        proof {
            assert(views_of(out0.push(out@[out@.len() - 1])) =~= views_of(out0) + seq![cur0]);
        }
    } else {
        proof {
            assert(views_of(out@) + Seq::<Seq<char>>::empty() =~= views_of(out@));
        }
    }
    out
}

/// The first `n` elements of `ts`, or all of them if fewer.
pub fn take_tokens(ts: Vec<Vec<char>>, n: usize) -> (r: Vec<Vec<char>>)
    ensures
        views_of(r@) == views_of(ts@).take(if n <= ts@.len() {
            n as int
        } else {
            ts@.len() as int
        }),
{
    let mut ts = ts;
    let ghost full = ts@;
    if n <= ts.len() {
        ts.truncate(n);
        proof {
            assert(views_of(full.subrange(0, n as int)) =~= views_of(full).take(n as int));
        }
    } else {
        proof {
            assert(views_of(ts@) =~= views_of(ts@).take(ts@.len() as int));
        }
    }
    ts
}

/// The pieces of `ts` joined with single spaces.
pub open spec fn join_spec(ts: Seq<Seq<char>>) -> Seq<char>
    decreases ts.len(),
{
    if ts.len() == 0 {
        Seq::empty()
    } else if ts.len() == 1 {
        ts[0]
    } else {
        join_spec(ts.drop_last()) + seq![' '] + ts.last()
    }
}

/// Joins the tokens of `ts` with single spaces.
pub fn join_tokens(ts: &Vec<Vec<char>>) -> (r: Vec<char>)
    ensures
        r@ == join_spec(views_of(ts@)),
{
    let mut out: Vec<char> = Vec::new();
    if ts.len() == 0 {
        return out;
    }
    append_chars(&mut out, &ts[0]);
    proof {
        assert(views_of(ts@.take(1))[0] == ts@[0]@);
        assert(views_of(ts@.take(1)).len() == 1);
        assert(Seq::<char>::empty() + ts@[0]@ =~= ts@[0]@);
    }
    let mut k: usize = 1;
    while k < ts.len()
        invariant
            1 <= k <= ts@.len(),
            out@ == join_spec(views_of(ts@.take(k as int))),
        decreases ts@.len() - k,
    {
        let ghost out0 = out@;
        out.push(' ');
        append_chars(&mut out, &ts[k]);
        proof {
            let pre = views_of(ts@.take(k as int));
            let cur = views_of(ts@.take(k + 1));
            assert(cur.drop_last() =~= pre);
            assert(cur.last() == ts@[k as int]@);
            assert(out0.push(' ') + ts@[k as int]@ =~= out0 + seq![' '] + ts@[k as int]@);
        }
        k += 1;
    }
    proof {
        assert(ts@.take(ts@.len() as int) =~= ts@);
    }
    out
}

/// `s` with every `from` character replaced by `to`.
pub open spec fn map_char_spec(s: Seq<char>, from: char, to: char) -> Seq<char> {
    s.map_values(
        |c: char|
            if c == from {
                to
            } else {
                c
            },
    )
}

/// Replaces every `from` character of `v` by `to`.
pub fn map_char(v: &Vec<char>, from: char, to: char) -> (r: Vec<char>)
    ensures
        r@ == map_char_spec(v@, from, to),
{
    let mut out: Vec<char> = Vec::new();
    let mut i: usize = 0;
    while i < v.len()
        invariant
            i <= v@.len(),
            out@.len() == i,
            forall|j: int|
                0 <= j < i ==> out@[j] == (if v@[j] == from {
                    to
                } else {
                    v@[j]
                }),
        decreases v@.len() - i,
    {
        if v[i] == from {
            out.push(to);
        } else {
            out.push(v[i]);
        }
        i += 1;
    }
    proof {
        assert(out@ =~= map_char_spec(v@, from, to));
    }
    out
}

} // verus!
