use vstd::prelude::*;

verus! {

/// `pat` occurs in `s` starting at position `i`.
pub open spec fn occurs_at(s: Seq<char>, pat: Seq<char>, i: int) -> bool {
    &&& 0 <= i
    &&& i + pat.len() <= s.len()
    &&& s.subrange(i, i + pat.len()) == pat
}

/// `pat` is a substring of `s`.
pub open spec fn contains(s: Seq<char>, pat: Seq<char>) -> bool {
    exists|i: int| occurs_at(s, pat, i)
}

/// `i` is the leftmost position at which `pat` occurs in `s`.
pub open spec fn first_occurrence(s: Seq<char>, pat: Seq<char>, i: int) -> bool {
    &&& occurs_at(s, pat, i)
    &&& forall|j: int| 0 <= j < i ==> !occurs_at(s, pat, j)
}

pub proof fn lemma_first_occurrence_unique(s: Seq<char>, pat: Seq<char>, i: int, j: int)
    requires
        first_occurrence(s, pat, i),
        first_occurrence(s, pat, j),
    ensures
        i == j,
{
}

/// The characters with the Unicode White_Space property.
pub open spec fn is_white(c: char) -> bool {
    ||| '\u{9}' <= c <= '\u{d}'
    ||| c == ' '
    ||| c == '\u{85}'
    ||| c == '\u{a0}'
    ||| c == '\u{1680}'
    ||| '\u{2000}' <= c <= '\u{200a}'
    ||| c == '\u{2028}'
    ||| c == '\u{2029}'
    ||| c == '\u{202f}'
    ||| c == '\u{205f}'
    ||| c == '\u{3000}'
}

/// `s` without its leading white space.
pub open spec fn trim_start(s: Seq<char>) -> Seq<char>
    decreases s.len(),
{
    if s.len() > 0 && is_white(s[0]) {
        trim_start(s.drop_first())
    } else {
        s
    }
}

/// `s` without its trailing white space.
pub open spec fn trim_end(s: Seq<char>) -> Seq<char>
    decreases s.len(),
{
    if s.len() > 0 && is_white(s.last()) {
        trim_end(s.drop_last())
    } else {
        s
    }
}

/// `s` without white space at either end.
pub open spec fn trim(s: Seq<char>) -> Seq<char> {
    trim_end(trim_start(s))
}

/// Relies on char::is_whitespace, which tests for the Unicode White_Space
/// property.
#[verifier::external_body]
fn is_whitespace(c: char) -> (r: bool)
    ensures
        r == is_white(c),
{
    c.is_whitespace()
}

/// The characters of `s`, one per element.
pub fn chars_of(s: &str) -> (r: Vec<char>)
    ensures
        r@ == s@,
{
    let n = s.unicode_len();
    let mut r: Vec<char> = Vec::new();
    let mut i: usize = 0;
    while i < n
        invariant
            n == s@.len(),
            i <= n,
            r@ == s@.take(i as int),
        decreases n - i,
    {
        let c = s.get_char(i);
        r.push(c);
        i += 1;
        assert(r@ =~= s@.take(i as int));
    }
    assert(r@ =~= s@);
    r
}

/// Whether `pat` occurs in `s` at position `i`.
pub fn matches_at(s: &Vec<char>, pat: &Vec<char>, i: usize) -> (r: bool)
    requires
        i <= s.len(),
    ensures
        r == occurs_at(s@, pat@, i as int),
{
    if pat.len() > s.len() - i {
        return false;
    }
    let mut k: usize = 0;
    while k < pat.len()
        invariant
            i + pat.len() <= s.len(),
            k <= pat.len(),
            forall|m: int| 0 <= m < k ==> s@[i + m] == pat@[m],
        decreases pat.len() - k,
    {
        if s[i + k] != pat[k] {
            assert(s@.subrange(i as int, i + pat.len())[k as int] != pat@[k as int]);
            return false;
        }
        k += 1;
    }
    assert(s@.subrange(i as int, i + pat.len()) =~= pat@);
    true
}

/// The leftmost position at which `pat` occurs in `s`, if any.
pub fn find(s: &Vec<char>, pat: &Vec<char>) -> (r: Option<usize>)
    ensures
        match r {
            Some(i) => first_occurrence(s@, pat@, i as int),
            None => !contains(s@, pat@),
        },
{
    let mut i: usize = 0;
    while i < s.len()
        invariant
            i <= s.len(),
            forall|j: int| 0 <= j < i ==> !occurs_at(s@, pat@, j),
        decreases s.len() - i,
    {
        if matches_at(s, pat, i) {
            return Some(i);
        }
        i += 1;
    }
    if matches_at(s, pat, i) {
        return Some(i);
    }
    assert forall|j: int| !occurs_at(s@, pat@, j) by {
        if 0 <= j <= i {
        }
    }
    None
}

/// Whether `pat` is a substring of `s`.
pub fn contains_str(s: &str, pat: &str) -> (r: bool)
    ensures
        r == contains(s@, pat@),
{
    let cs = chars_of(s);
    let ps = chars_of(pat);
    match find(&cs, &ps) {
        Some(_) => true,
        None => false,
    }
}

/// The bounds, within `lo..hi`, of that part of `s` with its white space
/// trimmed at both ends.
pub fn trim_range(s: &Vec<char>, lo: usize, hi: usize) -> (r: (usize, usize))
    requires
        lo <= hi <= s.len(),
    ensures
        lo <= r.0 <= r.1 <= hi,
        s@.subrange(r.0 as int, r.1 as int) == trim(s@.subrange(lo as int, hi as int)),
{
    let mut a: usize = lo;
    while a < hi && is_whitespace(s[a])
        invariant
            lo <= a <= hi <= s.len(),
            trim_start(s@.subrange(lo as int, hi as int)) == trim_start(
                s@.subrange(a as int, hi as int),
            ),
        decreases hi - a,
    {
        assert(s@.subrange(a as int, hi as int).drop_first() =~= s@.subrange(a + 1, hi as int));
        a += 1;
    }
    assert(trim_start(s@.subrange(lo as int, hi as int)) == s@.subrange(a as int, hi as int));
    let mut b: usize = hi;
    while b > a && is_whitespace(s[b - 1])
        invariant
            lo <= a <= b <= hi <= s.len(),
            trim(s@.subrange(lo as int, hi as int)) == trim_end(s@.subrange(a as int, b as int)),
        decreases b - a,
    {
        assert(s@.subrange(a as int, b as int).drop_last() =~= s@.subrange(a as int, b - 1));
        b -= 1;
    }
    (a, b)
}

/// The pieces of `s` between occurrences of `c`, as str::split gives them:
/// one more piece than there are occurrences, empty pieces kept.
pub open spec fn pieces(s: Seq<char>, c: char) -> Seq<Seq<char>>
    decreases s.len(),
{
    if s.len() == 0 {
        seq![Seq::<char>::empty()]
    } else {
        let r = pieces(s.drop_last(), c);
        if s.last() == c {
            r.push(Seq::<char>::empty())
        } else {
            r.update(r.len() - 1, r.last().push(s.last()))
        }
    }
}

/// The separator between a compound description's name and its list.
pub open spec fn name_sep() -> Seq<char> {
    seq![':', ' ']
}

/// The separator that a compound description's list must hold somewhere.
pub open spec fn list_sep() -> Seq<char> {
    seq![';', ' ']
}

/// A description of the form "name: item; item; ...".
pub open spec fn is_compound(d: Seq<char>) -> bool {
    contains(d, name_sep()) && contains(d, list_sep())
}

/// The description of one task that a compound description yields.
pub open spec fn entry_of(name: Seq<char>, item: Seq<char>) -> Seq<char> {
    trim(name) + name_sep() + trim(item)
}

pub open spec fn entries_for(name: Seq<char>, items: Seq<Seq<char>>) -> Seq<Seq<char>> {
    items.map_values(|item: Seq<char>| entry_of(name, item))
}

/// The task descriptions that description `d` stands for: for a compound
/// description, one per `;`-separated item after the first ": ", each
/// prefixed with the trimmed name; none for an empty description; otherwise
/// `d` itself.
pub open spec fn entries(d: Seq<char>) -> Seq<Seq<char>> {
    if is_compound(d) {
        let p = choose|p: int| first_occurrence(d, name_sep(), p);
        entries_for(d.take(p), pieces(d.skip(p + 2), ';'))
    } else if d.len() == 0 {
        Seq::empty()
    } else {
        seq![d]
    }
}

pub open spec fn views(v: Seq<String>) -> Seq<Seq<char>> {
    v.map_values(|x: String| x@)
}

/// The description of one task: `name`, ": ", and the trimmed characters
/// `lo..hi` of `d`.
fn make_entry(name: &String, d: &str, cs: &Vec<char>, lo: usize, hi: usize) -> (r: String)
    requires
        cs@ == d@,
        lo <= hi <= cs.len(),
    ensures
        r@ == name@ + name_sep() + trim(d@.subrange(lo as int, hi as int)),
{
    let (a, b) = trim_range(cs, lo, hi);
    let mut r = name.clone();
    proof {
        reveal_strlit(": ");
    }
    r.append(": ");
    r.append(d.substring_char(a, b));
    r
}

/// The task descriptions that `d` stands for: the compound form
/// "name: item; item; ..." yields one description "name: item" per item,
/// an empty `d` yields none, anything else yields `d` unchanged.
pub fn expand(d: &str) -> (r: Vec<String>)
    ensures
        views(r@) == entries(d@),
{
    let cs = chars_of(d);
    let colon = vec![':', ' '];
    let semi = vec![';', ' '];
    assert(colon@ =~= name_sep());
    assert(semi@ =~= list_sep());
    let p = find(&cs, &colon);
    let q = find(&cs, &semi);
    match (p, q) {
        (Some(p), Some(_)) => {
            let ghost dv = d@;
            proof {
                let pc = choose|x: int| first_occurrence(dv, name_sep(), x);
                lemma_first_occurrence_unique(dv, name_sep(), p as int, pc);
                assert(is_compound(dv));
            }
            let (na, nb) = trim_range(&cs, 0, p);
            let name = String::from_str(d.substring_char(na, nb));
            assert(name@ == trim(dv.take(p as int))) by {
                assert(dv.take(p as int) =~= dv.subrange(0, p as int));
            }
            let n = cs.len();
            let start0 = p + 2;
            let ghost rest = dv.subrange(start0 as int, n as int);
            let mut out: Vec<String> = Vec::new();
            let ghost mut done: Seq<Seq<char>> = Seq::empty();
            let mut start = start0;
            let mut k = start0;
            assert(dv.subrange(start0 as int, k as int) =~= Seq::<char>::empty());
            assert(pieces(Seq::<char>::empty(), ';') == done.push(dv.subrange(start as int, k as int)));
            while k < n
                invariant
                    cs@ == dv,
                    dv == d@,
                    n == cs.len(),
                    start0 <= start <= k <= n,
                    name@ == trim(dv.take(p as int)),
                    pieces(dv.subrange(start0 as int, k as int), ';') == done.push(
                        dv.subrange(start as int, k as int),
                    ),
                    views(out@) == entries_for(dv.take(p as int), done),
                decreases n - k,
            {
                let ghost pre = dv.subrange(start0 as int, k as int);
                assert(dv.subrange(start0 as int, k + 1).drop_last() =~= pre);
                assert(dv.subrange(start0 as int, k + 1).len() > 0);
                assert(dv.subrange(start0 as int, k + 1).last() == cs@[k as int]);
                if cs[k] == ';' {
                    let e = make_entry(&name, d, &cs, start, k);
                    out.push(e);
                    proof {
                        assert(views(out@) =~= entries_for(dv.take(p as int), done).push(e@));
                        let ghost prev = done;
                        done = done.push(dv.subrange(start as int, k as int));
                        assert(entries_for(dv.take(p as int), done) =~= entries_for(
                            dv.take(p as int),
                            prev,
                        ).push(e@));
                        assert(views(out@) =~= entries_for(dv.take(p as int), done));
                    }
                    start = k + 1;
                    assert(dv.subrange(start0 as int, k + 1).last() == ';');
                    assert(dv.subrange(start as int, k + 1) =~= Seq::<char>::empty());
                    assert(pieces(dv.subrange(start0 as int, k + 1), ';') =~= done.push(
                        dv.subrange(start as int, k + 1),
                    ));
                } else {
                    assert(dv.subrange(start as int, k + 1) =~= dv.subrange(
                        start as int,
                        k as int,
                    ).push(dv[k as int]));
                    assert(pieces(dv.subrange(start0 as int, k + 1), ';') =~= done.push(
                        dv.subrange(start as int, k + 1),
                    ));
                }
                k += 1;
            }
            let e = make_entry(&name, d, &cs, start, n);
            out.push(e);
            proof {
                assert(views(out@) =~= entries_for(dv.take(p as int), done).push(e@));
                assert(rest =~= dv.skip(p + 2));
                assert(entries_for(dv.take(p as int), done.push(dv.subrange(start as int, n as int)))
                    =~= entries_for(dv.take(p as int), done).push(e@));
            }
            out
        },
        _ => {
            if cs.len() == 0 {
                let r: Vec<String> = Vec::new();
                assert(views(r@) =~= Seq::<Seq<char>>::empty());
                return r;
            }
            let r = vec![String::from_str(d)];
            assert(views(r@) =~= seq![d@]);
            r
        },
    }
}

} // verus!
