use vstd::prelude::*;
use vstd::string::*;

verus! {

/// Relies on `String::push`: appends one character to the string.
#[verifier::external_body]
pub(crate) fn push_char(s: &mut String, c: char)
    ensures
        final(s)@ == old(s)@.push(c),
{
    s.push(c)
}

/// The characters of `s`, in order.
pub fn chars_of(s: &str) -> (r: Vec<char>)
    ensures
        r@ == s@,
{
    let mut out: Vec<char> = Vec::new();
    for c in it: s.chars()
        invariant
            out@ == it.seq().take(it.index() as int),
    {
        out.push(c);
    }
    out
}

/// Whether `v` holds `pat` starting at position `i`.
pub(crate) fn holds_at(v: &Vec<char>, i: usize, pat: &Vec<char>) -> (r: bool)
    requires
        i <= v.len(),
    ensures
        r == (i + pat.len() <= v.len() && v@.subrange(i as int, i + pat.len()) == pat@),
{
    if pat.len() > v.len() - i {
        return false;
    }
    let mut k: usize = 0;
    while k < pat.len()
        invariant
            i + pat.len() <= v.len(),
            k <= pat.len(),
            forall|j: int| 0 <= j < k ==> v@[i + j] == pat@[j],
        decreases pat.len() - k,
    {
        if v[i + k] != pat[k] {
            assert(v@.subrange(i as int, i + pat.len())[k as int] != pat@[k as int]);
            return false;
        }
        k += 1;
    }
    assert(v@.subrange(i as int, i + pat.len()) =~= pat@);
    true
}

/// `s` with each occurrence of `pat`, scanning from the left and without
/// overlap, replaced by `with`. An empty pattern leaves `s` as it is.
pub open spec fn replaced(s: Seq<char>, pat: Seq<char>, with: Seq<char>) -> Seq<char>
    decreases s.len(),
{
    if pat.len() == 0 || s.len() < pat.len() {
        s
    } else if s.take(pat.len() as int) == pat {
        with + replaced(s.skip(pat.len() as int), pat, with)
    } else {
        seq![s[0]] + replaced(s.drop_first(), pat, with)
    }
}

proof fn lemma_replaced_short(s: Seq<char>, pat: Seq<char>, with: Seq<char>)
    requires
        s.len() < pat.len(),
    ensures
        replaced(s, pat, with) == s,
{
}

/// `s` with every occurrence of `pat` replaced by `with`.
pub fn replace_all(s: &str, pat: &str, with: &str) -> (r: String)
    requires
        pat@.len() > 0,
    ensures
        r@ == replaced(s@, pat@, with@),
{
    let v = chars_of(s);
    let p = chars_of(pat);
    let n = v.len();
    let mut out = String::new();
    let mut i: usize = 0;
    assert(v@.skip(0) =~= v@);
    while i < n
        invariant
            v@ == s@,
            p@ == pat@,
            p@.len() > 0,
            n == v.len(),
            i <= n,
            out@ + replaced(v@.skip(i as int), pat@, with@) == replaced(s@, pat@, with@),
        decreases n - i,
    {
        let ghost rest = v@.skip(i as int);
        if holds_at(&v, i, &p) {
            proof {
                assert(rest.take(p@.len() as int) =~= v@.subrange(i as int, i + p@.len()));
                assert(rest.skip(p@.len() as int) =~= v@.skip(i + p@.len()));
                assert(out@ + with@ + replaced(v@.skip(i + p@.len()), pat@, with@) == out@ + (with@
                    + replaced(v@.skip(i + p@.len()), pat@, with@)));
            }
            out.append(with);
            i += p.len();
        } else {
            proof {
                assert(rest.drop_first() =~= v@.skip(i + 1));
                if rest.len() < p@.len() {
                    lemma_replaced_short(rest, pat@, with@);
                    lemma_replaced_short(rest.drop_first(), pat@, with@);
                    assert(rest =~= seq![rest[0]] + rest.drop_first());
                } else {
                    assert(rest.take(p@.len() as int) =~= v@.subrange(i as int, i + p@.len()));
                }
                assert(out@.push(v@[i as int]) + replaced(v@.skip(i + 1), pat@, with@) == out@ + (
                seq![rest[0]] + replaced(rest.drop_first(), pat@, with@)));
            }
            push_char(&mut out, v[i]);
            i += 1;
        }
    }
    assert(v@.skip(n as int) =~= Seq::<char>::empty());
    out
}

} // verus!
