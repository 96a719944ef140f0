use vstd::prelude::*;

verus! {

/// The characters with Unicode's White_Space property, the whitespace that
/// the commands and names of the chat are trimmed of.
pub open spec fn is_white_space_spec(c: char) -> bool {
    let n = c as u32;
    ||| 0x9 <= n <= 0xD
    ||| n == 0x20
    ||| n == 0x85
    ||| n == 0xA0
    ||| n == 0x1680
    ||| 0x2000 <= n <= 0x200A
    ||| n == 0x2028
    ||| n == 0x2029
    ||| n == 0x202F
    ||| n == 0x205F
    ||| n == 0x3000
}

/// `s` without its trailing whitespace.
pub open spec fn trim_end_spec(s: Seq<char>) -> Seq<char>
    decreases s.len(),
{
    if s.len() > 0 && is_white_space_spec(s.last()) {
        trim_end_spec(s.drop_last())
    } else {
        s
    }
}

/// `s` without its leading whitespace.
pub open spec fn trim_start_spec(s: Seq<char>) -> Seq<char>
    decreases s.len(),
{
    if s.len() > 0 && is_white_space_spec(s[0]) {
        trim_start_spec(s.drop_first())
    } else {
        s
    }
}

/// `s` without leading and trailing whitespace.
pub open spec fn trim_spec(s: Seq<char>) -> Seq<char> {
    trim_start_spec(trim_end_spec(s))
}

/// What follows `prefix` in `s`, where `s` starts with it.
pub open spec fn strip_prefix_spec(s: Seq<char>, prefix: Seq<char>) -> Option<Seq<char>> {
    if prefix.len() <= s.len() && s.take(prefix.len() as int) == prefix {
        Some(s.skip(prefix.len() as int))
    } else {
        None
    }
}

/// `i` is the first position of `c` in `s`.
pub open spec fn first_at(s: Seq<char>, c: char, i: int) -> bool {
    &&& 0 <= i < s.len()
    &&& s[i] == c
    &&& forall|j: int| 0 <= j < i ==> s[j] != c
}

/// `s` cut at the first `c`, which neither part keeps; `None` where `s` has no `c`.
pub open spec fn split_once_spec(s: Seq<char>, c: char) -> Option<(Seq<char>, Seq<char>)> {
    if exists|i: int| first_at(s, c, i) {
        let i = choose|i: int| first_at(s, c, i);
        Some((s.take(i), s.skip(i + 1)))
    } else {
        None
    }
}

/// Whether `c` has the White_Space property.
pub fn is_white_space(c: char) -> (b: bool)
    ensures
        b == is_white_space_spec(c),
{
    let n: u32 = c as u32;
    (0x9 <= n && n <= 0xD) || n == 0x20 || n == 0x85 || n == 0xA0 || n == 0x1680 || (0x2000 <= n
        && n <= 0x200A) || n == 0x2028 || n == 0x2029 || n == 0x202F || n == 0x205F || n == 0x3000
}

/// `s` without its trailing whitespace.
pub fn trim_end(s: &str) -> (r: &str)
    ensures
        r@ == trim_end_spec(s@),
{
    let n: usize = s.unicode_len();
    let mut end: usize = n;
    assert(s@.take(n as int) == s@);
    while end > 0 && is_white_space(s.get_char(end - 1))
        invariant
            end <= n,
            n == s@.len(),
            trim_end_spec(s@) == trim_end_spec(s@.take(end as int)),
        decreases end,
    {
        assert(s@.take(end as int).drop_last() == s@.take(end - 1));
        end = end - 1;
    }
    s.substring_char(0, end)
}

/// `s` without its leading whitespace.
pub fn trim_start(s: &str) -> (r: &str)
    ensures
        r@ == trim_start_spec(s@),
{
    let n: usize = s.unicode_len();
    let mut start: usize = 0;
    assert(s@.skip(0) == s@);
    while start < n && is_white_space(s.get_char(start))
        invariant
            start <= n,
            n == s@.len(),
            trim_start_spec(s@) == trim_start_spec(s@.skip(start as int)),
        decreases n - start,
    {
        assert(s@.skip(start as int).drop_first() == s@.skip(start + 1));
        start = start + 1;
    }
    assert(s@.subrange(start as int, n as int) == s@.skip(start as int));
    s.substring_char(start, n)
}

/// `s` without leading and trailing whitespace.
pub fn trim(s: &str) -> (r: &str)
    ensures
        r@ == trim_spec(s@),
{
    trim_start(trim_end(s))
}

/// What follows `prefix` in `s`, or `None` where `s` does not start with it.
pub fn strip_prefix<'a>(s: &'a str, prefix: &str) -> (r: Option<&'a str>)
    ensures
        r matches Some(rest) ==> strip_prefix_spec(s@, prefix@) == Some(rest@),
        r is None ==> strip_prefix_spec(s@, prefix@) is None,
{
    let n: usize = s.unicode_len();
    let m: usize = prefix.unicode_len();
    if m > n {
        return None;
    }
    let mut i: usize = 0;
    while i < m
        invariant
            i <= m <= n,
            n == s@.len(),
            m == prefix@.len(),
            forall|j: int| 0 <= j < i ==> s@[j] == prefix@[j],
        decreases m - i,
    {
        if s.get_char(i) != prefix.get_char(i) {
            assert(s@.take(m as int)[i as int] != prefix@[i as int]);
            return None;
        }
        i = i + 1;
    }
    assert(s@.take(m as int) == prefix@);
    assert(s@.subrange(m as int, n as int) == s@.skip(m as int));
    Some(s.substring_char(m, n))
}

/// `s` cut at its first `c`, or `None` where it holds none.
pub fn split_once<'a>(s: &'a str, c: char) -> (r: Option<(&'a str, &'a str)>)
    ensures
        r matches Some(parts) ==> split_once_spec(s@, c) == Some((parts.0@, parts.1@)),
        r is None ==> split_once_spec(s@, c) is None,
{
    let n: usize = s.unicode_len();
    let mut i: usize = 0;
    while i < n
        invariant
            i <= n,
            n == s@.len(),
            forall|j: int| 0 <= j < i ==> s@[j] != c,
        decreases n - i,
    {
        if s.get_char(i) == c {
            assert(first_at(s@, c, i as int));
            assert forall|k: int| first_at(s@, c, k) implies k == i by {
                if k < i {
                } else if k > i {
                    assert(s@[i as int] == c);
                }
            }
            assert(s@.subrange(i + 1, n as int) == s@.skip(i + 1));
            assert(s@.subrange(0, i as int) == s@.take(i as int));
            return Some((s.substring_char(0, i), s.substring_char(i + 1, n)));
        }
        i = i + 1;
    }
    None
}

/// Trimming the end keeps a prefix of the text and removes only whitespace:
/// what is removed is all whitespace, and what is kept does not end in it.
pub proof fn law_trim_end(s: Seq<char>)
    ensures
        trim_end_spec(s).len() <= s.len(),
        s.take(trim_end_spec(s).len() as int) == trim_end_spec(s),
        forall|i: int| trim_end_spec(s).len() <= i < s.len() ==> is_white_space_spec(#[trigger] s[i]),
        trim_end_spec(s).len() == 0 || !is_white_space_spec(trim_end_spec(s).last()),
    decreases s.len(),
{
    if s.len() > 0 && is_white_space_spec(s.last()) {
        let d = s.drop_last();
        law_trim_end(d);
        assert(s.take(trim_end_spec(d).len() as int) == d.take(trim_end_spec(d).len() as int));
        assert forall|i: int| trim_end_spec(s).len() <= i < s.len() implies is_white_space_spec(
            #[trigger] s[i],
        ) by {
            if i < d.len() {
                assert(s[i] == d[i]);
            }
        }
    } else {
        assert(s.take(s.len() as int) == s);
    }
}

/// Trimming the start keeps a suffix of the text and removes only
/// whitespace: what is removed is all whitespace, and what is kept does not
/// start with it.
pub proof fn law_trim_start(s: Seq<char>)
    ensures
        trim_start_spec(s).len() <= s.len(),
        s.skip(s.len() - trim_start_spec(s).len()) == trim_start_spec(s),
        forall|i: int| 0 <= i < s.len() - trim_start_spec(s).len() ==> is_white_space_spec(#[trigger] s[i]),
        trim_start_spec(s).len() == 0 || !is_white_space_spec(trim_start_spec(s)[0]),
    decreases s.len(),
{
    if s.len() > 0 && is_white_space_spec(s[0]) {
        let d = s.drop_first();
        law_trim_start(d);
        let k = s.len() - trim_start_spec(s).len();
        assert(s.skip(k) =~= d.skip(d.len() - trim_start_spec(d).len()));
        assert forall|i: int| 0 <= i < k implies is_white_space_spec(#[trigger] s[i]) by {
            if i > 0 {
                assert(s[i] == d[i - 1]);
            }
        }
    } else {
        assert(s.skip(0) == s);
    }
}

/// A stripped prefix is given back whole: what follows it, appended to it,
/// is the text; and where the text does not start with it, nothing appended
/// to it gives the text.
pub proof fn law_strip_prefix(s: Seq<char>, prefix: Seq<char>, rest: Seq<char>)
    ensures
        strip_prefix_spec(s, prefix) matches Some(r) ==> prefix + r == s,
        strip_prefix_spec(s, prefix) is None ==> prefix + rest != s,
{
    if let Some(r) = strip_prefix_spec(s, prefix) {
        assert(prefix + r =~= s);
    }
    if strip_prefix_spec(s, prefix) is None && prefix + rest == s {
        assert((prefix + rest).take(prefix.len() as int) =~= prefix);
    }
}

/// A split gives back the text: the part before, the separator, the part
/// after; the part before holds no separator. There is no split only where
/// the text holds no separator.
pub proof fn law_split_once(s: Seq<char>, c: char)
    ensures
        split_once_spec(s, c) matches Some(parts) ==> parts.0 + seq![c] + parts.1 == s
            && !parts.0.contains(c),
        split_once_spec(s, c) is None ==> !s.contains(c),
{
    if exists|i: int| first_at(s, c, i) {
        let i = choose|i: int| first_at(s, c, i);
        assert(s.take(i) + seq![c] + s.skip(i + 1) =~= s);
        if s.take(i).contains(c) {
            let k = choose|k: int| 0 <= k < s.take(i).len() && s.take(i)[k] == c;
            assert(s[k] == c);
        }
    } else if s.contains(c) {
        let k = choose|k: int| 0 <= k < s.len() && s[k] == c;
        lemma_first_exists(s, c, k);
    }
}

proof fn lemma_first_exists(s: Seq<char>, c: char, k: int)
    requires
        0 <= k < s.len(),
        s[k] == c,
    ensures
        exists|i: int| first_at(s, c, i),
    decreases k,
{
    if forall|j: int| 0 <= j < k ==> s[j] != c {
        assert(first_at(s, c, k));
    } else {
        let j = choose|j: int| 0 <= j < k && s[j] == c;
        lemma_first_exists(s, c, j);
    }
}

} // verus!
