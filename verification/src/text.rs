use vstd::prelude::*;

verus! {

/// The characters of `s`, in order.
pub fn chars_of(s: &str) -> (res: Vec<char>)
    ensures
        res@ == s@,
{
    let mut res: Vec<char> = Vec::new();
    for c in it: s.chars()
        invariant
            res@ == it.seq().take(it.index() as int),
    {
        res.push(c);
    }
    res
}

/// Whether `c` has the Unicode `White_Space` property, as `char::is_whitespace`
/// tests it.
pub open spec fn is_whitespace(c: char) -> bool {
    let v = c as u32;
    ||| 0x9 <= v <= 0xd
    ||| v == 0x20
    ||| v == 0x85
    ||| v == 0xa0
    ||| v == 0x1680
    ||| 0x2000 <= v <= 0x200a
    ||| v == 0x2028
    ||| v == 0x2029
    ||| v == 0x202f
    ||| v == 0x205f
    ||| v == 0x3000
}

/// Whether `c` is white space.
pub fn char_is_whitespace(c: char) -> (res: bool)
    ensures
        res == is_whitespace(c),
{
    let v = c as u32;
    (0x9 <= v && v <= 0xd) || v == 0x20 || v == 0x85 || v == 0xa0 || v == 0x1680 || (0x2000
        <= v && v <= 0x200a) || v == 0x2028 || v == 0x2029 || v == 0x202f || v == 0x205f || v
        == 0x3000
}

/// End of the run of non-white-space characters of `s` that starts at `i`.
pub open spec fn word_end(s: Seq<char>, i: int) -> int
    decreases s.len() - i,
{
    if 0 <= i < s.len() && !is_whitespace(s[i]) {
        word_end(s, i + 1)
    } else {
        i
    }
}

/// A word that starts inside `s` ends after its start and within `s`.
pub proof fn lemma_word_end_bounds(s: Seq<char>, i: int)
    requires
        0 <= i <= s.len(),
    ensures
        i <= word_end(s, i) <= s.len(),
        i < s.len() && !is_whitespace(s[i]) ==> i < word_end(s, i),
        word_end(s, i) < s.len() ==> is_whitespace(s[word_end(s, i)]),
        forall|j: int| i <= j < word_end(s, i) ==> !is_whitespace(#[trigger] s[j]),
    decreases s.len() - i,
{
    if i < s.len() && !is_whitespace(s[i]) {
        lemma_word_end_bounds(s, i + 1);
    }
}

/// The white-space separated words of `s` from position `i` on, as
/// `str::split_whitespace` yields them.
pub open spec fn words_from(s: Seq<char>, i: int) -> Seq<Seq<char>>
    decreases s.len() - i,
{
    if i < 0 || i >= s.len() {
        seq![]
    } else if is_whitespace(s[i]) {
        words_from(s, i + 1)
    } else {
        proof {
            lemma_word_end_bounds(s, i);
        }
        seq![s.subrange(i, word_end(s, i))] + words_from(s, word_end(s, i))
    }
}

/// The first word of `chars` at or after `from`: its start and end, or `None`
/// where only white space follows.
pub fn next_word(chars: &Vec<char>, from: usize) -> (res: Option<(usize, usize)>)
    requires
        from <= chars.len(),
    ensures
        match res {
            Some((a, b)) => {
                &&& from <= a < b <= chars.len()
                &&& words_from(chars@, from as int).len() > 0
                &&& words_from(chars@, from as int)[0] == chars@.subrange(a as int, b as int)
                &&& words_from(chars@, from as int).drop_first() == words_from(chars@, b as int)
            },
            None => words_from(chars@, from as int).len() == 0,
        },
{
    let n = chars.len();
    let mut i = from;
    while i < n && char_is_whitespace(chars[i])
        invariant
            from <= i <= n,
            n == chars.len(),
            words_from(chars@, from as int) == words_from(chars@, i as int),
        decreases n - i,
    {
        i += 1;
    }
    if i == n {
        return None;
    }
    let mut j = i + 1;
    proof {
        lemma_word_end_bounds(chars@, i as int);
    }
    while j < n && !char_is_whitespace(chars[j])
        invariant
            i < j <= n,
            n == chars.len(),
            word_end(chars@, i as int) == word_end(chars@, j as int),
        decreases n - j,
    {
        j += 1;
    }
    proof {
        lemma_word_end_bounds(chars@, i as int);
        assert(words_from(chars@, i as int) == seq![chars@.subrange(i as int, j as int)]
            + words_from(chars@, j as int));
        assert((seq![chars@.subrange(i as int, j as int)] + words_from(chars@, j as int)).drop_first()
            =~= words_from(chars@, j as int));
    }
    Some((i, j))
}

/// Position of the first `": "` in `text` at or after `k`.
pub open spec fn separator_from(text: Seq<char>, k: int) -> Option<int>
    decreases text.len() - k,
{
    if k < 0 || k + 1 >= text.len() {
        None
    } else if text[k] == ':' && text[k + 1] == ' ' {
        Some(k)
    } else {
        separator_from(text, k + 1)
    }
}

/// A separator found is a `": "` at or after `k`.
pub proof fn lemma_separator_from(text: Seq<char>, k: int)
    requires
        0 <= k,
    ensures
        separator_from(text, k) matches Some(p) ==> k <= p && p + 1 < text.len() && text[p]
            == ':' && text[p + 1] == ' ',
    decreases text.len() - k,
{
    if k + 1 < text.len() && !(text[k] == ':' && text[k + 1] == ' ') {
        lemma_separator_from(text, k + 1);
    }
}

/// Position of the first `": "` in `chars`, as `str::split_once(": ")` finds it.
pub fn find_separator(chars: &Vec<char>) -> (res: Option<usize>)
    ensures
        res matches Some(p) ==> separator_from(chars@, 0) == Some(p as int),
        res is None ==> separator_from(chars@, 0) is None,
{
    let n = chars.len();
    let mut k: usize = 0;
    while k < n && k + 1 < n
        invariant
            n == chars.len(),
            k <= n,
            separator_from(chars@, 0) == separator_from(chars@, k as int),
        decreases n - k,
    {
        if chars[k] == ':' && chars[k + 1] == ' ' {
            return Some(k);
        }
        k += 1;
    }
    None
}

/// `a` sorts before `b`: at the first place where they differ `a` holds the
/// smaller code point, or `a` is a proper prefix of `b`. This is the order of
/// `String`'s `Ord`, since UTF-8 keeps the order of code points.
pub open spec fn text_less(a: Seq<char>, b: Seq<char>) -> bool
    decreases a.len(),
{
    if a.len() == 0 {
        b.len() > 0
    } else if b.len() == 0 {
        false
    } else if a[0] != b[0] {
        (a[0] as u32) < (b[0] as u32)
    } else {
        text_less(a.drop_first(), b.drop_first())
    }
}

/// No text sorts before itself.
pub proof fn lemma_text_less_irreflexive(a: Seq<char>)
    ensures
        !text_less(a, a),
    decreases a.len(),
{
    if a.len() > 0 {
        lemma_text_less_irreflexive(a.drop_first());
    }
}

/// Two different texts are ordered one way or the other, never both.
pub proof fn lemma_text_less_total(a: Seq<char>, b: Seq<char>)
    ensures
        a != b ==> text_less(a, b) || text_less(b, a),
        !(text_less(a, b) && text_less(b, a)),
    decreases a.len(),
{
    if a.len() > 0 && b.len() > 0 {
        lemma_text_less_total(a.drop_first(), b.drop_first());
        if a[0] == b[0] && a != b {
            assert(a =~= seq![a[0]] + a.drop_first());
            assert(b =~= seq![b[0]] + b.drop_first());
        }
        if a[0] != b[0] {
            vstd::utf8::char_u32_cast(a[0], a[0] as u32);
            vstd::utf8::char_u32_cast(b[0], b[0] as u32);
        }
    } else if a.len() == 0 && b.len() == 0 {
        assert(a =~= b);
    }
}

/// Sorting before is transitive.
pub proof fn lemma_text_less_transitive(a: Seq<char>, b: Seq<char>, c: Seq<char>)
    requires
        text_less(a, b),
        text_less(b, c),
    ensures
        text_less(a, c),
    decreases a.len(),
{
    if a.len() > 0 && b.len() > 0 && c.len() > 0 {
        if a[0] == b[0] && b[0] == c[0] {
            lemma_text_less_transitive(a.drop_first(), b.drop_first(), c.drop_first());
        }
    }
}

/// Whether `a` sorts before `b`.
pub fn text_is_less(a: &str, b: &str) -> (res: bool)
    ensures
        res == text_less(a@, b@),
{
    let x = chars_of(a);
    let y = chars_of(b);
    let mut i: usize = 0;
    assert(x@.skip(0) =~= x@);
    assert(y@.skip(0) =~= y@);
    while i < x.len() && i < y.len() && x[i] == y[i]
        invariant
            i <= x.len(),
            i <= y.len(),
            text_less(x@, y@) == text_less(x@.skip(i as int), y@.skip(i as int)),
        decreases x.len() - i,
    {
        assert(x@.skip(i as int).drop_first() =~= x@.skip(i + 1));
        assert(y@.skip(i as int).drop_first() =~= y@.skip(i + 1));
        i += 1;
    }
    if i == x.len() {
        i < y.len()
    } else if i == y.len() {
        false
    } else {
        (x[i] as u32) < (y[i] as u32)
    }
}

} // verus!
