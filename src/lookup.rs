use vstd::prelude::*;

verus! {

/// The last element of `s` that satisfies `m`, if any.
pub open spec fn find_by<T>(s: Seq<T>, m: spec_fn(T) -> bool) -> Option<T>
    decreases s.len(),
{
    if s.len() == 0 {
        None
    } else if m(s.last()) {
        Some(s.last())
    } else {
        find_by(s.drop_last(), m)
    }
}

/// Matches an entry whose key is the path `p`.
pub open spec fn path_is<V>(p: Seq<char>) -> spec_fn((String, V)) -> bool {
    |e: (String, V)| e.0@ == p
}

/// Value recorded for the path `p` in a list of entries keyed by path.
pub open spec fn lookup<V>(s: Seq<(String, V)>, p: Seq<char>) -> Option<V> {
    match find_by(s, path_is::<V>(p)) {
        Some(e) => Some(e.1),
        None => None,
    }
}

/// Appending an element makes it the answer when it matches.
pub proof fn lemma_find_by_push<T>(s: Seq<T>, x: T, m: spec_fn(T) -> bool)
    ensures
        find_by(s.push(x), m) == (if m(x) {
            Some(x)
        } else {
            find_by(s, m)
        }),
{
    assert(s.push(x).drop_last() =~= s);
}

/// Replacing an element by one that matches the same way.
pub proof fn lemma_find_by_update<T>(s: Seq<T>, i: int, x: T, m: spec_fn(T) -> bool)
    requires
        0 <= i < s.len(),
        m(s[i]) == m(x),
        m(x) ==> forall|j: int| i < j < s.len() ==> !m(s[j]),
    ensures
        find_by(s.update(i, x), m) == (if m(x) {
            Some(x)
        } else {
            find_by(s, m)
        }),
    decreases s.len(),
{
    let t = s.update(i, x);
    if i == s.len() - 1 {
        assert(t.drop_last() =~= s.drop_last());
    } else {
        assert(t.drop_last() =~= s.drop_last().update(i, x));
        if !m(s.last()) {
            lemma_find_by_update(s.drop_last(), i, x, m);
        }
    }
}

/// The result of a search is an element of the sequence that matches.
pub proof fn lemma_find_by_some<T>(s: Seq<T>, m: spec_fn(T) -> bool)
    ensures
        find_by(s, m) matches Some(x) ==> m(x) && exists|j: int| 0 <= j < s.len() && s[j] == x,
        find_by(s, m) is None ==> forall|j: int| 0 <= j < s.len() ==> !m(s[j]),
    decreases s.len(),
{
    if s.len() > 0 {
        lemma_find_by_some(s.drop_last(), m);
        if find_by(s, m) is None {
            assert forall|j: int| 0 <= j < s.len() implies !m(s[j]) by {
                if j < s.len() - 1 {
                    assert(s.drop_last()[j] == s[j]);
                }
            }
        }
        if !m(s.last()) {
            if let Some(x) = find_by(s, m) {
                let j = choose|j: int| 0 <= j < s.drop_last().len() && s.drop_last()[j] == x;
                assert(s[j] == x);
            }
        }
    }
}

/// Index of the last entry keyed by `p`, if any.
pub fn find_path_index<V>(v: &Vec<(String, V)>, p: &String) -> (r: Option<usize>)
    ensures
        match r {
            Some(i) => i < v@.len() && v@[i as int].0@ == p@
                && (forall|j: int| i < j < v@.len() ==> v@[j].0@ != p@)
                && lookup(v@, p@) == Some(v@[i as int].1),
            None => lookup(v@, p@) is None && forall|j: int| 0 <= j < v@.len() ==> v@[j].0@ != p@,
        },
{
    let ghost m = path_is::<V>(p@);
    let mut i: usize = v.len();
    assert(v@.subrange(0, i as int) =~= v@);
    while i > 0
        invariant
            i <= v@.len(),
            m == path_is::<V>(p@),
            find_by(v@, m) == find_by(v@.subrange(0, i as int), m),
            forall|j: int| i <= j < v@.len() ==> v@[j].0@ != p@,
        decreases i,
    {
        let ghost pre = v@.subrange(0, i as int);
        assert(pre.last() == v@[i - 1]);
        if v[i - 1].0 == *p {
            return Some(i - 1);
        }
        assert(pre.drop_last() =~= v@.subrange(0, i - 1));
        i = i - 1;
    }
    assert(v@.subrange(0, 0) =~= Seq::<(String, V)>::empty());
    None
}


/// Searching a mapped sequence finds the image of what searching the
/// source sequence finds, when the map keeps what the searches look at.
pub proof fn lemma_find_by_map<A, B>(
    s: Seq<A>,
    f: spec_fn(A) -> B,
    ma: spec_fn(A) -> bool,
    mb: spec_fn(B) -> bool,
)
    requires
        forall|x: A| #[trigger] mb(f(x)) == ma(x),
    ensures
        find_by(s.map_values(f), mb) == match find_by(s, ma) {
            Some(x) => Some(f(x)),
            None => None,
        },
    decreases s.len(),
{
    if s.len() > 0 {
        assert(s.map_values(f).drop_last() =~= s.drop_last().map_values(f));
        assert(s.map_values(f).last() == f(s.last()));
        lemma_find_by_map(s.drop_last(), f, ma, mb);
    }
}

/// Searching a concatenation: the second part wins.
pub proof fn lemma_find_by_concat<T>(a: Seq<T>, b: Seq<T>, m: spec_fn(T) -> bool)
    ensures
        find_by(a + b, m) == match find_by(b, m) {
            Some(x) => Some(x),
            None => find_by(a, m),
        },
    decreases b.len(),
{
    if b.len() == 0 {
        assert(a + b =~= a);
    } else {
        assert((a + b).drop_last() =~= a + b.drop_last());
        assert((a + b).last() == b.last());
        lemma_find_by_concat(a, b.drop_last(), m);
    }
}

} // verus!
