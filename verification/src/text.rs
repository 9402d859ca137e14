use vstd::prelude::*;

verus! {

/// The token separator of the line syntax: the space character, and nothing
/// else (no tabs, no quoting, no escaping).
pub fn is_space(ch: char) -> (r: bool)
    ensures
        r == (ch == ' '),
{
    ch == ' '
}

/// The Unicode white-space characters: what leading/trailing trimming of a
/// typed line removes.
pub open spec fn is_white(c: char) -> bool {
    let u = c as u32;
    (9 <= u <= 13) || u == 32 || u == 133 || u == 160 || u == 0x1680 || (0x2000 <= u <= 0x200A)
        || u == 0x2028 || u == 0x2029 || u == 0x202F || u == 0x205F || u == 0x3000
}

/// True exactly for the Unicode white-space characters.
pub fn is_white_char(c: char) -> (r: bool)
    ensures
        r == is_white(c),
{
    let u = c as u32;
    (9 <= u && u <= 13) || u == 32 || u == 133 || u == 160 || u == 0x1680 || (0x2000 <= u && u
        <= 0x200A) || u == 0x2028 || u == 0x2029 || u == 0x202F || u == 0x205F || u == 0x3000
}

/// `s` without its leading white-space characters.
pub open spec fn trim_start_spec(s: Seq<char>) -> Seq<char>
    decreases s.len(),
{
    if s.len() > 0 && is_white(s[0]) {
        trim_start_spec(s.drop_first())
    } else {
        s
    }
}

/// `s` without its trailing white-space characters.
pub open spec fn trim_end_spec(s: Seq<char>) -> Seq<char>
    decreases s.len(),
{
    if s.len() > 0 && is_white(s.last()) {
        trim_end_spec(s.drop_last())
    } else {
        s
    }
}

/// `s` without leading and trailing white space.
pub open spec fn trim_spec(s: Seq<char>) -> Seq<char> {
    trim_end_spec(trim_start_spec(s))
}

/// Trimming leaves a string untouched when neither end is white space.
pub proof fn lemma_trim_id(s: Seq<char>)
    requires
        s.len() > 0,
        !is_white(s[0]),
        !is_white(s.last()),
    ensures
        trim_spec(s) == s,
{
}

proof fn lemma_trim_start_head(s: Seq<char>)
    ensures
        trim_start_spec(s).len() == 0 || !is_white(trim_start_spec(s)[0]),
    decreases s.len(),
{
    if s.len() > 0 && is_white(s[0]) {
        lemma_trim_start_head(s.drop_first());
    }
}

proof fn lemma_trim_end_keeps_head(s: Seq<char>)
    requires
        s.len() > 0,
        !is_white(s[0]),
    ensures
        trim_end_spec(s).len() > 0,
        trim_end_spec(s)[0] == s[0],
        !is_white(trim_end_spec(s).last()),
    decreases s.len(),
{
    if is_white(s.last()) {
        assert(s.len() >= 2);
        assert(s.drop_last()[0] == s[0]);
        lemma_trim_end_keeps_head(s.drop_last());
    }
}

/// A trimmed string is already trimmed: re-trimming changes nothing.
pub proof fn lemma_trim_idempotent(s: Seq<char>)
    ensures
        trim_spec(trim_spec(s)) == trim_spec(s),
{
    let u = trim_start_spec(s);
    lemma_trim_start_head(s);
    if u.len() > 0 {
        lemma_trim_end_keeps_head(u);
        lemma_trim_id(trim_end_spec(u));
    }
}

/// Strips leading and trailing white space from a string slice.
pub fn trim_str(s: &str) -> (r: &str)
    ensures
        r@ == trim_spec(s@),
{
    let n = s.unicode_len();
    let mut i: usize = 0;
    proof {
        assert(s@.skip(0) =~= s@);
    }
    while i < n && is_white_char(s.get_char(i))
        invariant
            n == s@.len(),
            i <= n,
            trim_start_spec(s@) == trim_start_spec(s@.skip(i as int)),
        decreases n - i,
    {
        proof {
            assert(s@.skip(i as int)[0] == s@[i as int]);
            assert(s@.skip(i as int).drop_first() =~= s@.skip(i + 1 as int));
        }
        i += 1;
    }
    proof {
        if i < n {
            assert(s@.skip(i as int)[0] == s@[i as int]);
        }
        assert(trim_start_spec(s@) == s@.skip(i as int));
        assert(s@.subrange(i as int, n as int) =~= s@.skip(i as int));
    }
    let mut j: usize = n;
    while j > i && is_white_char(s.get_char(j - 1))
        invariant
            n == s@.len(),
            i <= j <= n,
            trim_end_spec(s@.skip(i as int)) == trim_end_spec(s@.subrange(i as int, j as int)),
        decreases j,
    {
        proof {
            let cur = s@.subrange(i as int, j as int);
            assert(cur.last() == s@[j - 1]);
            assert(cur.drop_last() =~= s@.subrange(i as int, j - 1));
        }
        j -= 1;
    }
    proof {
        if j > i {
            assert(s@.subrange(i as int, j as int).last() == s@[j - 1]);
        }
        assert(trim_end_spec(s@.subrange(i as int, j as int)) == s@.subrange(i as int, j as int));
    }
    s.substring_char(i, j)
}

/// The pieces of `cur + s` delimited by `sep`, with empty pieces dropped;
/// `cur` is the piece accumulated so far.
pub open spec fn split_acc(s: Seq<char>, sep: char, cur: Seq<char>) -> Seq<Seq<char>>
    decreases s.len(),
{
    if s.len() == 0 {
        if cur.len() == 0 {
            Seq::empty()
        } else {
            seq![cur]
        }
    } else if s[0] == sep {
        if cur.len() == 0 {
            split_acc(s.drop_first(), sep, Seq::empty())
        } else {
            seq![cur] + split_acc(s.drop_first(), sep, Seq::empty())
        }
    } else {
        split_acc(s.drop_first(), sep, cur.push(s[0]))
    }
}

/// The nonempty pieces of `s` delimited by `sep`, in order. Runs of
/// separators act as one; leading and trailing separators are ignored.
pub open spec fn split_drop(s: Seq<char>, sep: char) -> Seq<Seq<char>> {
    split_acc(s, sep, Seq::empty())
}

/// All pieces of `cur + s` delimited by `sep`, empty pieces kept.
pub open spec fn split_keep_acc(s: Seq<char>, sep: char, cur: Seq<char>) -> Seq<Seq<char>>
    decreases s.len(),
{
    if s.len() == 0 {
        seq![cur]
    } else if s[0] == sep {
        seq![cur] + split_keep_acc(s.drop_first(), sep, Seq::empty())
    } else {
        split_keep_acc(s.drop_first(), sep, cur.push(s[0]))
    }
}

/// All pieces of `s` delimited by `sep`, empty pieces kept: a string with
/// k separators has exactly k + 1 pieces.
pub open spec fn split_keep(s: Seq<char>, sep: char) -> Seq<Seq<char>> {
    split_keep_acc(s, sep, Seq::empty())
}

/// True when no character of `s` is `sep`.
pub open spec fn sep_free(s: Seq<char>, sep: char) -> bool {
    forall|i: int| 0 <= i < s.len() ==> s[i] != sep
}

/// `parts` joined into one string with `sep` between adjacent parts.
pub open spec fn join_with(parts: Seq<Seq<char>>, sep: Seq<char>) -> Seq<char>
    decreases parts.len(),
{
    if parts.len() == 0 {
        Seq::empty()
    } else if parts.len() == 1 {
        parts[0]
    } else {
        parts[0] + sep + join_with(parts.drop_first(), sep)
    }
}

/// Joining one more part appends a separator and the part.
pub proof fn lemma_join_push(parts: Seq<Seq<char>>, x: Seq<char>, sep: Seq<char>)
    requires
        parts.len() >= 1,
    ensures
        join_with(parts.push(x), sep) == join_with(parts, sep) + sep + x,
    decreases parts.len(),
{
    if parts.len() == 1 {
        assert(parts.push(x).drop_first() =~= seq![x]);
        assert(join_with(seq![x], sep) == x);
        assert(parts.push(x)[0] == parts[0]);
    } else {
        assert(parts.push(x).drop_first() =~= parts.drop_first().push(x));
        assert(parts.push(x)[0] == parts[0]);
        lemma_join_push(parts.drop_first(), x, sep);
        assert(parts[0] + sep + (join_with(parts.drop_first(), sep) + sep + x)
            =~= (parts[0] + sep + join_with(parts.drop_first(), sep)) + sep + x);
    }
}

/// A joined list ends with the last character of its last part.
pub proof fn lemma_join_last(parts: Seq<Seq<char>>, sep: Seq<char>)
    requires
        parts.len() >= 1,
        parts.last().len() > 0,
    ensures
        join_with(parts, sep).len() > 0,
        join_with(parts, sep).last() == parts.last().last(),
    decreases parts.len(),
{
    if parts.len() == 1 {
    } else {
        assert(parts.drop_first().last() == parts.last());
        lemma_join_last(parts.drop_first(), sep);
        let tail = sep + join_with(parts.drop_first(), sep);
        assert((parts[0] + tail).last() == tail.last());
        assert(tail.last() == join_with(parts.drop_first(), sep).last());
    }
}

/// Splitting folds a separator-free prefix into the accumulated piece.
pub proof fn lemma_split_acc_prefix(s: Seq<char>, t: Seq<char>, sep: char, cur: Seq<char>)
    requires
        sep_free(s, sep),
    ensures
        split_acc(s + t, sep, cur) == split_acc(t, sep, cur + s),
    decreases s.len(),
{
    if s.len() == 0 {
        assert(s + t =~= t);
        assert(cur + s =~= cur);
    } else {
        assert((s + t)[0] == s[0]);
        assert((s + t).drop_first() =~= s.drop_first() + t);
        assert(sep_free(s.drop_first(), sep));
        lemma_split_acc_prefix(s.drop_first(), t, sep, cur.push(s[0]));
        assert(cur.push(s[0]) + s.drop_first() =~= cur + s);
    }
}

/// A separator-free string splits into the single accumulated piece, or
/// into nothing when that piece is empty.
pub proof fn lemma_split_acc_all(s: Seq<char>, sep: char, cur: Seq<char>)
    requires
        sep_free(s, sep),
    ensures
        split_acc(s, sep, cur) == if cur.len() + s.len() == 0 {
            Seq::<Seq<char>>::empty()
        } else {
            seq![cur + s]
        },
{
    lemma_split_acc_prefix(s, Seq::empty(), sep, cur);
    assert(s + Seq::<char>::empty() =~= s);
    if cur.len() + s.len() != 0 {
        assert((cur + s).len() != 0);
    }
}

/// Splitting steps over a leading separator, emitting the accumulated piece
/// if it is nonempty.
pub proof fn lemma_split_acc_sep(t: Seq<char>, sep: char, cur: Seq<char>)
    ensures
        split_acc(seq![sep] + t, sep, cur) == if cur.len() == 0 {
            split_acc(t, sep, Seq::empty())
        } else {
            seq![cur] + split_acc(t, sep, Seq::empty())
        },
{
    assert((seq![sep] + t)[0] == sep);
    assert((seq![sep] + t).drop_first() =~= t);
}

/// Character-for-character equality of two string slices.
pub fn str_eq(a: &str, b: &str) -> (r: bool)
    ensures
        r == (a@ == b@),
{
    let an = a.unicode_len();
    let bn = b.unicode_len();
    if an != bn {
        return false;
    }
    let mut i: usize = 0;
    while i < an
        invariant
            an == a@.len(),
            bn == b@.len(),
            an == bn,
            i <= an,
            forall|j: int| 0 <= j < i ==> a@[j] == b@[j],
        decreases an - i,
    {
        if a.get_char(i) != b.get_char(i) {
            return false;
        }
        i += 1;
    }
    proof {
        assert(a@ =~= b@);
    }
    true
}

/// The nonempty `sep`-delimited pieces of `s`, as owned strings.
pub fn split_string(s: &str, sep: char) -> (r: Vec<String>)
    ensures
        r.deep_view() == split_drop(s@, sep),
{
    let n = s.unicode_len();
    let mut r: Vec<String> = Vec::new();
    let mut start: usize = 0;
    let mut i: usize = 0;
    proof {
        assert(s@.skip(0) =~= s@);
        assert(s@.subrange(0, 0) =~= Seq::<char>::empty());
        assert(r.deep_view() =~= Seq::<Seq<char>>::empty());
        assert(r.deep_view() + split_acc(s@, sep, Seq::empty())
            =~= split_acc(s@, sep, Seq::empty()));
    }
    while i < n
        invariant
            n == s@.len(),
            start <= i <= n,
            forall|j: int| start <= j < i ==> s@[j] != sep,
            r.deep_view() + split_acc(s@.skip(i as int), sep, s@.subrange(start as int, i as int))
                == split_drop(s@, sep),
        decreases n - i,
    {
        let ghost pre = r.deep_view();
        let ghost cur = s@.subrange(start as int, i as int);
        proof {
            assert(s@.skip(i as int)[0] == s@[i as int]);
            assert(s@.skip(i as int).drop_first() =~= s@.skip(i + 1 as int));
        }
        let c = s.get_char(i);
        if c == sep {
            if start < i {
                let piece = String::from_str(s.substring_char(start, i));
                r.push(piece);
                proof {
                    assert(r.deep_view() =~= pre.push(cur));
                    assert(seq![cur] + split_acc(s@.skip(i + 1 as int), sep, Seq::empty())
                        == split_acc(s@.skip(i as int), sep, cur));
                    assert(pre.push(cur) + split_acc(s@.skip(i + 1 as int), sep, Seq::empty())
                        =~= pre + (seq![cur] + split_acc(s@.skip(i + 1 as int), sep, Seq::empty())));
                }
            }
            start = i + 1;
            proof {
                assert(s@.subrange(start as int, start as int) =~= Seq::<char>::empty());
            }
        } else {
            proof {
                assert(s@.subrange(start as int, i + 1 as int) =~= cur.push(s@[i as int]));
            }
        }
        i += 1;
    }
    if start < n {
        let ghost pre = r.deep_view();
        let ghost cur = s@.subrange(start as int, n as int);
        let piece = String::from_str(s.substring_char(start, n));
        r.push(piece);
        proof {
            assert(s@.skip(n as int) =~= Seq::<char>::empty());
            assert(r.deep_view() =~= pre.push(cur));
            assert(pre.push(cur) =~= pre + seq![cur]);
        }
    } else {
        proof {
            assert(s@.skip(n as int) =~= Seq::<char>::empty());
            assert(s@.subrange(start as int, n as int) =~= Seq::<char>::empty());
            assert(r.deep_view() + Seq::<Seq<char>>::empty() =~= r.deep_view());
        }
    }
    r
}

/// All `sep`-delimited pieces of `s`, empty pieces kept, as owned strings.
pub fn split_string_keep(s: &str, sep: char) -> (r: Vec<String>)
    ensures
        r.deep_view() == split_keep(s@, sep),
{
    let n = s.unicode_len();
    let mut r: Vec<String> = Vec::new();
    let mut start: usize = 0;
    let mut i: usize = 0;
    proof {
        assert(s@.skip(0) =~= s@);
        assert(s@.subrange(0, 0) =~= Seq::<char>::empty());
        assert(r.deep_view() =~= Seq::<Seq<char>>::empty());
        assert(r.deep_view() + split_keep_acc(s@, sep, Seq::empty())
            =~= split_keep_acc(s@, sep, Seq::empty()));
    }
    while i < n
        invariant
            n == s@.len(),
            start <= i <= n,
            forall|j: int| start <= j < i ==> s@[j] != sep,
            r.deep_view() + split_keep_acc(s@.skip(i as int), sep, s@.subrange(start as int, i as int))
                == split_keep(s@, sep),
        decreases n - i,
    {
        let ghost pre = r.deep_view();
        let ghost cur = s@.subrange(start as int, i as int);
        proof {
            assert(s@.skip(i as int)[0] == s@[i as int]);
            assert(s@.skip(i as int).drop_first() =~= s@.skip(i + 1 as int));
        }
        let c = s.get_char(i);
        if c == sep {
            let piece = String::from_str(s.substring_char(start, i));
            r.push(piece);
            proof {
                assert(r.deep_view() =~= pre.push(cur));
                assert(pre.push(cur) + split_keep_acc(s@.skip(i + 1 as int), sep, Seq::empty())
                    =~= pre + (seq![cur] + split_keep_acc(s@.skip(i + 1 as int), sep, Seq::empty())));
            }
            start = i + 1;
            proof {
                assert(s@.subrange(start as int, start as int) =~= Seq::<char>::empty());
            }
        } else {
            proof {
                assert(s@.subrange(start as int, i + 1 as int) =~= cur.push(s@[i as int]));
            }
        }
        i += 1;
    }
    let ghost pre = r.deep_view();
    let ghost cur = s@.subrange(start as int, n as int);
    let piece = String::from_str(s.substring_char(start, n));
    r.push(piece);
    proof {
        assert(s@.skip(n as int) =~= Seq::<char>::empty());
        assert(r.deep_view() =~= pre.push(cur));
        assert(pre.push(cur) =~= pre + seq![cur]);
    }
    r
}

} // verus!
