use vstd::prelude::*;

verus! {

/// Position of the first `c` in `s`.
pub open spec fn first_index(s: Seq<char>, c: char) -> Option<int>
    decreases s.len(),
{
    if s.len() == 0 {
        None
    } else if s[0] == c {
        Some(0)
    } else {
        match first_index(s.drop_first(), c) {
            Some(j) => Some(j + 1),
            None => None,
        }
    }
}

/// `s` cut at every `c`; no escaping, empty pieces kept.
pub open spec fn split_on(s: Seq<char>, c: char) -> Seq<Seq<char>>
    decreases s.len(),
{
    match first_index(s, c) {
        Some(i) => if 0 <= i < s.len() {
            seq![s.subrange(0, i)] + split_on(s.subrange(i + 1, s.len() as int), c)
        } else {
            seq![s]
        },
        None => seq![s],
    }
}

proof fn lemma_first_index(s: Seq<char>, c: char, i: int)
    requires
        0 <= i < s.len(),
        s[i] == c,
        forall|k: int| 0 <= k < i ==> s[k] != c,
    ensures
        first_index(s, c) == Some(i),
    decreases i,
{
    if i > 0 {
        lemma_first_index(s.drop_first(), c, i - 1);
    }
}

proof fn lemma_no_index(s: Seq<char>, c: char)
    requires
        forall|k: int| 0 <= k < s.len() ==> s[k] != c,
    ensures
        first_index(s, c) is None,
    decreases s.len(),
{
    if s.len() > 0 {
        lemma_no_index(s.drop_first(), c);
    }
}

/// Cuts a path at every `/`.
pub fn split_path(path: &str) -> (r: Vec<String>)
    ensures
        r@.map_values(|x: String| x@) == split_on(path@, '/'),
{
    let n = path.unicode_len();
    let mut out: Vec<String> = Vec::new();
    let mut start: usize = 0;
    let mut i: usize = 0;
    proof {
        assert(path@.subrange(0, n as int) =~= path@);
        assert(out@.map_values(|x: String| x@) =~= Seq::<Seq<char>>::empty());
        assert(out@.map_values(|x: String| x@) + split_on(path@, '/') =~= split_on(path@, '/'));
    }
    while i < n
        invariant
            n == path@.len(),
            0 <= start <= i <= n,
            forall|k: int| start <= k < i ==> path@[k] != '/',
            out@.map_values(|x: String| x@) + split_on(path@.subrange(start as int, n as int), '/')
                == split_on(path@, '/'),
        decreases n - i,
    {
        if path.get_char(i) == '/' {
            let piece = String::from_str(path.substring_char(start, i));
            proof {
                let t = path@.subrange(start as int, n as int);
                lemma_first_index(t, '/', i - start);
                assert(t.subrange(0, i - start) =~= piece@);
                assert(t.subrange(i - start + 1, t.len() as int) =~= path@.subrange(i + 1, n as int));
            }
            let ghost before = out@;
            out.push(piece);
            proof {
                assert(out@.map_values(|x: String| x@) =~= before.map_values(|x: String| x@).push(
                    piece@,
                ));
                assert(out@.map_values(|x: String| x@) + split_on(path@.subrange(i + 1, n as int), '/')
                    =~= split_on(path@, '/'));
            }
            start = i + 1;
        }
        i = i + 1;
    }
    let last = String::from_str(path.substring_char(start, n));
    proof {
        let t = path@.subrange(start as int, n as int);
        lemma_no_index(t, '/');
        assert(last@ =~= t);
    }
    let ghost before = out@;
    out.push(last);
    proof {
        assert(out@.map_values(|x: String| x@) =~= before.map_values(|x: String| x@).push(last@));
        assert(out@.map_values(|x: String| x@) =~= split_on(path@, '/'));
    }
    out
}

} // verus!
