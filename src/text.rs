//! Small verified operations on text and paths.
use vstd::prelude::*;

verus! {

/// `s` ends with `suffix`.
pub open spec fn has_suffix(s: Seq<char>, suffix: Seq<char>) -> bool {
    suffix.len() <= s.len() && s.subrange(s.len() - suffix.len(), s.len() as int) == suffix
}

/// `s` starts with `prefix`.
pub open spec fn has_prefix(s: Seq<char>, prefix: Seq<char>) -> bool {
    prefix.len() <= s.len() && s.subrange(0, prefix.len() as int) == prefix
}

/// Every non-overlapping occurrence of `pat`, scanning from the left, replaced by `rep`.
pub open spec fn replaced(s: Seq<char>, pat: Seq<char>, rep: Seq<char>) -> Seq<char>
    recommends
        pat.len() > 0,
    decreases s.len(),
{
    if s.len() == 0 || pat.len() == 0 {
        s
    } else if has_prefix(s, pat) {
        rep + replaced(s.subrange(pat.len() as int, s.len() as int), pat, rep)
    } else {
        seq![s[0]] + replaced(s.subrange(1, s.len() as int), pat, rep)
    }
}

/// `base` joined with the relative path `name`, with one separator between them.
pub open spec fn joined(base: Seq<char>, name: Seq<char>) -> Seq<char> {
    if base.len() == 0 {
        name
    } else if base.last() == '/' {
        base + name
    } else {
        base + seq!['/'] + name
    }
}

/// The text after the last separator of `p` (all of `p` when it holds none).
pub open spec fn last_component(p: Seq<char>) -> Seq<char>
    decreases p.len(),
{
    if p.len() == 0 {
        p
    } else if p.last() == '/' {
        seq![]
    } else {
        last_component(p.drop_last()).push(p.last())
    }
}

pub fn ends_with(s: &str, suffix: &str) -> (r: bool)
    ensures
        r == has_suffix(s@, suffix@),
{
    let n = s.unicode_len();
    let m = suffix.unicode_len();
    if m > n {
        return false;
    }
    let mut i: usize = 0;
    while i < m
        invariant
            m <= n,
            n == s@.len(),
            m == suffix@.len(),
            i <= m,
            forall|k: int| 0 <= k < i ==> s@[n - m + k] == suffix@[k],
        decreases m - i,
    {
        if s.get_char(n - m + i) != suffix.get_char(i) {
            assert(s@.subrange(n - m, n as int)[i as int] != suffix@[i as int]);
            return false;
        }
        i = i + 1;
    }
    assert(s@.subrange(n - m, n as int) =~= suffix@);
    true
}

pub fn same_text(a: &str, b: &str) -> (r: bool)
    ensures
        r == (a@ == b@),
{
    a.to_owned() == b.to_owned()
}

/// `base` joined with `name` (see `joined`).
pub fn join_path(base: &str, name: &str) -> (r: String)
    ensures
        r@ == joined(base@, name@),
{
    let n = base.unicode_len();
    proof {
        reveal_strlit("/");
    }
    if n == 0 {
        name.to_owned()
    } else if base.get_char(n - 1) == '/' {
        base.to_owned().concat(name)
    } else {
        base.to_owned().concat("/").concat(name)
    }
}

proof fn lemma_replaced_plain_run(s: Seq<char>, pat: Seq<char>, rep: Seq<char>, start: int, i: int)
    requires
        pat.len() > 0,
        0 <= start <= i <= s.len(),
        forall|k: int| start <= k < i ==> !has_prefix(#[trigger] s.subrange(k, s.len() as int), pat),
    ensures
        replaced(s.subrange(start, s.len() as int), pat, rep) == s.subrange(start, i) + replaced(
            s.subrange(i, s.len() as int),
            pat,
            rep,
        ),
    decreases i - start,
{
    if start < i {
        let t = s.subrange(start, s.len() as int);
        assert(!has_prefix(s.subrange(start, s.len() as int), pat));
        assert(t.subrange(1, t.len() as int) =~= s.subrange(start + 1, s.len() as int));
        lemma_replaced_plain_run(s, pat, rep, start + 1, i);
        assert(seq![t[0]] + s.subrange(start + 1, i) =~= s.subrange(start, i));
    } else {
        assert(s.subrange(start, i) =~= Seq::<char>::empty());
    }
}

/// Replaces every non-overlapping occurrence of `pat` in `s`, from the left, by `rep`.
pub fn replace_all(s: &str, pat: &str, rep: &str) -> (r: String)
    requires
        pat@.len() > 0,
    ensures
        r@ == replaced(s@, pat@, rep@),
{
    let n = s.unicode_len();
    let m = pat.unicode_len();
    let mut out = String::new();
    let mut start: usize = 0;
    let mut i: usize = 0;
    assert(s@.subrange(0, n as int) =~= s@);
    while i < n
        invariant
            n == s@.len(),
            m == pat@.len(),
            m > 0,
            start <= i <= n,
            forall|k: int| start <= k < i ==> !has_prefix(#[trigger] s@.subrange(k, n as int), pat@),
            out@ + replaced(s@.subrange(start as int, n as int), pat@, rep@) == replaced(s@, pat@, rep@),
        decreases n - i,
    {
        let mut hit = m <= n - i;
        let mut k: usize = 0;
        while hit && k < m
            invariant
                n == s@.len(),
                m == pat@.len(),
                i < n,
                k <= m,
                hit ==> i + m <= n,
                hit ==> forall|j: int| 0 <= j < k ==> s@[i + j] == pat@[j],
                !hit ==> !has_prefix(s@.subrange(i as int, n as int), pat@),
            decreases m - k + (if hit { 1int } else { 0int }),
        {
            if s.get_char(i + k) != pat.get_char(k) {
                assert(s@.subrange(i as int, n as int).subrange(0, m as int)[k as int] != pat@[k as int]);
                hit = false;
            } else {
                k = k + 1;
            }
        }
        if hit {
            assert(s@.subrange(i as int, n as int).subrange(0, m as int) =~= pat@);
            proof {
                lemma_replaced_plain_run(s@, pat@, rep@, start as int, i as int);
                let t = s@.subrange(i as int, n as int);
                assert(t.subrange(m as int, t.len() as int) =~= s@.subrange(i + m, n as int));
            }
            out.append(s.substring_char(start, i));
            out.append(rep);
            assert(out@ + replaced(s@.subrange(i + m, n as int), pat@, rep@) == replaced(s@, pat@, rep@)) by {
                assert(out@ =~= (out@.subrange(0, out@.len() - rep@.len() as int)) + rep@);
            }
            i = i + m;
            start = i;
        } else {
            i = i + 1;
        }
    }
    proof {
        lemma_replaced_plain_run(s@, pat@, rep@, start as int, n as int);
        assert(s@.subrange(n as int, n as int).len() == 0);
    }
    out.append(s.substring_char(start, n));
    assert(out@ == replaced(s@, pat@, rep@)) by {
        assert(s@.subrange(n as int, n as int) =~= Seq::<char>::empty());
    }
    out
}

/// The last component of the path `p`: the text after its last separator.
pub fn file_name(p: &str) -> (r: String)
    ensures
        r@ == last_component(p@),
{
    let n = p.unicode_len();
    let mut j = n;
    let mut found = false;
    assert(p@.subrange(0, n as int) =~= p@);
    assert(p@.subrange(n as int, n as int) =~= Seq::<char>::empty());
    while j > 0 && !found
        invariant
            n == p@.len(),
            j <= n,
            found ==> j > 0 && p@[j - 1] == '/',
            last_component(p@) == last_component(p@.subrange(0, j as int)) + p@.subrange(j as int, n as int),
        decreases j + (if found { 0int } else { 1int }),
    {
        if p.get_char(j - 1) == '/' {
            found = true;
        } else {
            let ghost pre = p@.subrange(0, j as int);
            assert(pre.drop_last() =~= p@.subrange(0, j - 1));
            assert(p@.subrange(j - 1, n as int) =~= seq![pre.last()] + p@.subrange(j as int, n as int));
            assert(last_component(pre) =~= last_component(p@.subrange(0, j - 1)).push(pre.last()));
            j = j - 1;
        }
    }
    if found {
        assert(p@.subrange(0, j as int).last() == '/');
    } else {
        assert(p@.subrange(0, 0) =~= Seq::<char>::empty());
    }
    assert(last_component(p@.subrange(0, j as int)) =~= Seq::<char>::empty());
    p.substring_char(j, n).to_owned()
}

} // verus!
