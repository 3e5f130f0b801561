//! Character-level text helpers: whitespace trimming, ASCII lowercasing and
//! comma-separated field splitting, each with an exact specification over `Seq<char>`.
use vstd::prelude::*;

verus! {

/// Unicode `White_Space` property, as listed in the Unicode character database (PropList.txt).
pub open spec fn is_white_space(c: char) -> bool {
    let u = c as u32;
    ||| 0x09 <= u <= 0x0D
    ||| u == 0x20
    ||| u == 0x85
    ||| u == 0xA0
    ||| u == 0x1680
    ||| 0x2000 <= u <= 0x200A
    ||| u == 0x2028
    ||| u == 0x2029
    ||| u == 0x202F
    ||| u == 0x205F
    ||| u == 0x3000
}

/// `char::is_whitespace`: whether `c` has the Unicode `White_Space` property.
pub fn char_is_whitespace(c: char) -> (b: bool)
    ensures
        b == is_white_space(c),
{
    let u = c as u32;
    (0x09 <= u && u <= 0x0D) || u == 0x20 || u == 0x85 || u == 0xA0 || u == 0x1680 || (0x2000 <= u && u <= 0x200A)
        || u == 0x2028 || u == 0x2029 || u == 0x202F || u == 0x205F || u == 0x3000
}

/// `String::push`: appends one character to the end of the string.
#[verifier::external_body]
pub fn push_char(s: &mut String, c: char)
    ensures
        final(s)@ == old(s)@.push(c),
{
    s.push(c)
}

/// ASCII lowercase mapping of one character (`char::to_ascii_lowercase`).
pub open spec fn ascii_lower(c: char) -> char {
    if 'A' <= c && c <= 'Z' {
        ((c as u32) + 32) as char
    } else {
        c
    }
}

pub open spec fn ascii_lower_seq(s: Seq<char>) -> Seq<char> {
    s.map_values(|c: char| ascii_lower(c))
}

/// Number of leading white-space characters.
pub open spec fn leading_ws(s: Seq<char>) -> nat
    decreases s.len(),
{
    if s.len() == 0 {
        0
    } else if is_white_space(s[0]) {
        1 + leading_ws(s.drop_first())
    } else {
        0
    }
}

/// Number of trailing white-space characters.
pub open spec fn trailing_ws(s: Seq<char>) -> nat
    decreases s.len(),
{
    if s.len() == 0 {
        0
    } else if is_white_space(s.last()) {
        1 + trailing_ws(s.drop_last())
    } else {
        0
    }
}

/// `str::trim`: the sequence without leading and trailing white space.
pub open spec fn trim_spec(s: Seq<char>) -> Seq<char> {
    let lead = leading_ws(s);
    if lead == s.len() {
        Seq::empty()
    } else {
        s.subrange(lead as int, s.len() - trailing_ws(s))
    }
}

/// Fields of `s` separated by `sep`, as `str::split` yields them (always at least one field).
pub open spec fn split_spec(s: Seq<char>, sep: char) -> Seq<Seq<char>>
    decreases s.len(),
{
    if s.len() == 0 {
        seq![Seq::<char>::empty()]
    } else {
        let prev = split_spec(s.drop_last(), sep);
        if s.last() == sep {
            prev.push(Seq::<char>::empty())
        } else {
            prev.update(prev.len() - 1, prev.last().push(s.last()))
        }
    }
}

pub proof fn lemma_split_nonempty(s: Seq<char>, sep: char)
    ensures
        split_spec(s, sep).len() >= 1,
    decreases s.len(),
{
    if s.len() > 0 {
        lemma_split_nonempty(s.drop_last(), sep);
    }
}

proof fn lemma_leading_ws_bound(s: Seq<char>)
    ensures
        leading_ws(s) <= s.len(),
        forall|i: int| 0 <= i < leading_ws(s) ==> is_white_space(#[trigger] s[i]),
        leading_ws(s) < s.len() ==> !is_white_space(s[leading_ws(s) as int]),
    decreases s.len(),
{
    if s.len() > 0 && is_white_space(s[0]) {
        lemma_leading_ws_bound(s.drop_first());
        assert forall|i: int| 0 <= i < leading_ws(s) implies is_white_space(#[trigger] s[i]) by {
            if i > 0 {
                assert(s[i] == s.drop_first()[i - 1]);
            }
        }
    }
}

proof fn lemma_trailing_ws_bound(s: Seq<char>)
    ensures
        trailing_ws(s) <= s.len(),
        forall|i: int| s.len() - trailing_ws(s) <= i < s.len() ==> is_white_space(#[trigger] s[i]),
        trailing_ws(s) < s.len() ==> !is_white_space(s[s.len() - trailing_ws(s) - 1]),
    decreases s.len(),
{
    if s.len() > 0 && is_white_space(s.last()) {
        lemma_trailing_ws_bound(s.drop_last());
        assert forall|i: int| s.len() - trailing_ws(s) <= i < s.len() implies is_white_space(
            #[trigger] s[i],
        ) by {
            if i < s.len() - 1 {
                assert(s[i] == s.drop_last()[i]);
            }
        }
    }
}

proof fn lemma_leading_from(s: Seq<char>, i: int)
    requires
        0 <= i <= s.len(),
        forall|j: int| 0 <= j < i ==> is_white_space(#[trigger] s[j]),
        i == s.len() || !is_white_space(s[i]),
    ensures
        leading_ws(s) == i,
    decreases i,
{
    if i > 0 {
        assert forall|j: int| 0 <= j < i - 1 implies is_white_space(#[trigger] s.drop_first()[j]) by {
            assert(s.drop_first()[j] == s[j + 1]);
        }
        if i - 1 < s.drop_first().len() {
            assert(s.drop_first()[i - 1] == s[i]);
        }
        lemma_leading_from(s.drop_first(), i - 1);
    } else if s.len() > 0 {
        assert(!is_white_space(s[0]));
    }
}

proof fn lemma_trailing_from(s: Seq<char>, k: int)
    requires
        0 <= k <= s.len(),
        forall|j: int| s.len() - k <= j < s.len() ==> is_white_space(#[trigger] s[j]),
        k == s.len() || !is_white_space(s[s.len() - k - 1]),
    ensures
        trailing_ws(s) == k,
    decreases k,
{
    if k > 0 {
        let t = s.drop_last();
        assert forall|j: int| t.len() - (k - 1) <= j < t.len() implies is_white_space(#[trigger] t[j]) by {
            assert(t[j] == s[j]);
        }
        if k - 1 < t.len() {
            assert(t[t.len() - (k - 1) - 1] == s[s.len() - k - 1]);
        }
        assert(is_white_space(s.last()));
        lemma_trailing_from(t, k - 1);
    } else if s.len() > 0 {
        assert(!is_white_space(s.last()));
    }
}

/// The characters of `s`, one per element.
pub fn chars_of(s: &str) -> (out: Vec<char>)
    ensures
        out@ == s@,
{
    let n = s.unicode_len();
    let mut out: Vec<char> = Vec::new();
    let mut i: usize = 0;
    while i < n
        invariant
            n == s@.len(),
            i <= n,
            out@ == s@.subrange(0, i as int),
        decreases n - i,
    {
        let c = s.get_char(i);
        out.push(c);
        i = i + 1;
        assert(out@ =~= s@.subrange(0, i as int));
    }
    assert(out@ =~= s@);
    out
}

/// A string holding `chars[from..to]`.
pub fn string_of_range(chars: &Vec<char>, from: usize, to: usize) -> (out: String)
    requires
        from <= to <= chars.len(),
    ensures
        out@ == chars@.subrange(from as int, to as int),
{
    let mut out = String::new();
    let mut i = from;
    while i < to
        invariant
            from <= i <= to <= chars.len(),
            out@ == chars@.subrange(from as int, i as int),
        decreases to - i,
    {
        push_char(&mut out, chars[i]);
        i = i + 1;
        assert(out@ =~= chars@.subrange(from as int, i as int));
    }
    out
}

/// Bounds `(start, end)` of the trimmed part of `chars`.
pub fn trim_bounds(chars: &Vec<char>) -> (r: (usize, usize))
    ensures
        r.0 <= r.1 <= chars.len(),
        chars@.subrange(r.0 as int, r.1 as int) == trim_spec(chars@),
{
    let n = chars.len();
    let mut start: usize = 0;
    while start < n && char_is_whitespace(chars[start])
        invariant
            start <= n == chars.len(),
            forall|j: int| 0 <= j < start ==> is_white_space(#[trigger] chars@[j]),
        decreases n - start,
    {
        start = start + 1;
    }
    proof {
        lemma_leading_from(chars@, start as int);
    }
    if start == n {
        assert(chars@.subrange(n as int, n as int) =~= Seq::<char>::empty());
        return (n, n);
    }
    let mut end: usize = n;
    while end > start && char_is_whitespace(chars[end - 1])
        invariant
            start < n == chars.len(),
            start <= end <= n,
            !is_white_space(chars@[start as int]),
            forall|j: int| end <= j < n ==> is_white_space(#[trigger] chars@[j]),
        decreases end,
    {
        end = end - 1;
    }
    proof {
        lemma_trailing_from(chars@, (n - end) as int);
    }
    (start, end)
}

/// `str::trim` followed by `str::to_ascii_lowercase`.
pub fn trim_lower(s: &str) -> (out: String)
    ensures
        out@ == ascii_lower_seq(trim_spec(s@)),
{
    let chars = chars_of(s);
    let (start, end) = trim_bounds(&chars);
    let mut out = String::new();
    let mut i = start;
    while i < end
        invariant
            start <= i <= end <= chars.len(),
            out@ == ascii_lower_seq(chars@.subrange(start as int, i as int)),
        decreases end - i,
    {
        let c = chars[i];
        let lower = if 'A' <= c && c <= 'Z' {
            to_lower_ascii_letter(c)
        } else {
            c
        };
        push_char(&mut out, lower);
        i = i + 1;
        assert(out@ =~= ascii_lower_seq(chars@.subrange(start as int, i as int)));
    }
    out
}

fn to_lower_ascii_letter(c: char) -> (r: char)
    requires
        'A' <= c && c <= 'Z',
    ensures
        r == ascii_lower(c),
{
    let u: u32 = c as u32;
    let v: u8 = (u + 32) as u8;
    v as char
}

/// Views of a vector of strings.
pub open spec fn views(v: Seq<String>) -> Seq<Seq<char>> {
    v.map_values(|x: String| x@)
}

/// `str::split(sep)`, collected: the fields of `s` separated by `sep`.
pub fn split_fields(s: &str, sep: char) -> (out: Vec<String>)
    ensures
        views(out@) == split_spec(s@, sep),
{
    let chars = chars_of(s);
    let n = chars.len();
    let mut done: Vec<String> = Vec::new();
    let mut start: usize = 0;
    let mut i: usize = 0;
    assert(chars@.subrange(0, 0) =~= Seq::<char>::empty());
    assert(views(done@) =~= Seq::<Seq<char>>::empty());
    assert(split_spec(Seq::<char>::empty(), sep) =~= seq![Seq::<char>::empty()]);
    assert(views(done@).push(chars@.subrange(0, 0)) =~= seq![Seq::<char>::empty()]);
    while i < n
        invariant
            n == chars.len(),
            chars@ == s@,
            start <= i <= n,
            split_spec(chars@.subrange(0, i as int), sep) == views(done@).push(
                chars@.subrange(start as int, i as int),
            ),
        decreases n - i,
    {
        let ghost pre = chars@.subrange(0, i as int);
        assert(chars@.subrange(0, i + 1).drop_last() =~= pre);
        assert(chars@.subrange(0, i + 1).last() == chars@[i as int]);
        if chars[i] == sep {
            let field = string_of_range(&chars, start, i);
            done.push(field);
            start = i + 1;
            assert(views(done@) =~= views(done@.drop_last()).push(field@));
            assert(chars@.subrange(start as int, i + 1) =~= Seq::<char>::empty());
        } else {
            assert(chars@.subrange(start as int, i + 1) =~= chars@.subrange(start as int, i as int).push(chars@[i as int]));
        }
        i = i + 1;
        assert(split_spec(chars@.subrange(0, i as int), sep) =~= views(done@).push(
            chars@.subrange(start as int, i as int),
        ));
    }
    let last = string_of_range(&chars, start, n);
    let ghost before = done@;
    done.push(last);
    assert(chars@.subrange(0, n as int) =~= s@);
    assert(views(done@) =~= views(before).push(last@));
    done
}

/// `str::trim`, as an owned string.
pub fn trim_string(s: &str) -> (out: String)
    ensures
        out@ == trim_spec(s@),
{
    let chars = chars_of(s);
    let (start, end) = trim_bounds(&chars);
    string_of_range(&chars, start, end)
}

/// `str::to_ascii_lowercase`.
pub fn lower_ascii(s: &str) -> (out: String)
    ensures
        out@ == ascii_lower_seq(s@),
{
    let chars = chars_of(s);
    let mut out = String::new();
    let mut i: usize = 0;
    while i < chars.len()
        invariant
            i <= chars.len(),
            chars@ == s@,
            out@ == ascii_lower_seq(chars@.subrange(0, i as int)),
        decreases chars.len() - i,
    {
        let c = chars[i];
        let lower = if 'A' <= c && c <= 'Z' {
            to_lower_ascii_letter(c)
        } else {
            c
        };
        push_char(&mut out, lower);
        i = i + 1;
        assert(out@ =~= ascii_lower_seq(chars@.subrange(0, i as int)));
    }
    assert(chars@.subrange(0, chars.len() as int) =~= s@);
    out
}

/// `needle` occurs in `hay` at position `i`.
pub open spec fn occurs_at(hay: Seq<char>, needle: Seq<char>, i: int) -> bool {
    0 <= i && i + needle.len() <= hay.len() && hay.subrange(i, i + needle.len()) == needle
}

/// `str::contains` with a string pattern: `needle` occurs somewhere in `hay`.
pub open spec fn has_substring(hay: Seq<char>, needle: Seq<char>) -> bool {
    exists|i: int| #[trigger] occurs_at(hay, needle, i)
}

fn matches_at(hay: &Vec<char>, needle: &Vec<char>, i: usize) -> (b: bool)
    requires
        i + needle.len() <= hay.len(),
    ensures
        b == occurs_at(hay@, needle@, i as int),
{
    let mut k: usize = 0;
    while k < needle.len()
        invariant
            k <= needle.len(),
            i + needle.len() <= hay.len(),
            forall|j: int| 0 <= j < k ==> hay@[i + j] == needle@[j],
        decreases needle.len() - k,
    {
        if hay[i + k] != needle[k] {
            assert(hay@.subrange(i as int, i + needle.len())[k as int] != needle@[k as int]);
            return false;
        }
        k = k + 1;
    }
    assert(hay@.subrange(i as int, i + needle.len()) =~= needle@);
    true
}

/// `str::contains` with a string pattern.
pub fn contains_text(hay: &str, needle: &str) -> (b: bool)
    ensures
        b == has_substring(hay@, needle@),
{
    let h = chars_of(hay);
    let n = chars_of(needle);
    if n.len() > h.len() {
        proof {
            if has_substring(hay@, needle@) {
                let i = choose|i: int| #[trigger] occurs_at(hay@, needle@, i);
            }
        }
        return false;
    }
    if n.len() == 0 {
        assert(occurs_at(hay@, needle@, 0)) by {
            assert(hay@.subrange(0, 0) =~= needle@);
        }
        return true;
    }
    let mut i: usize = 0;
    while i <= h.len() - n.len()
        invariant
            1 <= n.len() <= h.len(),
            h@ == hay@,
            n@ == needle@,
            i <= h.len(),
            forall|j: int| 0 <= j < i ==> !#[trigger] occurs_at(hay@, needle@, j),
        decreases h.len() - i,
    {
        if matches_at(&h, &n, i) {
            return true;
        }
        i = i + 1;
    }
    proof {
        if has_substring(hay@, needle@) {
            let j = choose|j: int| #[trigger] occurs_at(hay@, needle@, j);
            assert(j < i);
        }
    }
    false
}

/// Whether `x` is among the strings of `v`.
pub fn contains_string(v: &Vec<String>, x: &String) -> (b: bool)
    ensures
        b == views(v@).contains(x@),
{
    let mut i: usize = 0;
    while i < v.len()
        invariant
            i <= v.len(),
            forall|j: int| 0 <= j < i ==> (#[trigger] v@[j])@ != x@,
        decreases v.len() - i,
    {
        if v[i] == *x {
            assert(views(v@)[i as int] == x@);
            return true;
        }
        i = i + 1;
    }
    proof {
        if views(v@).contains(x@) {
            let j = choose|j: int| 0 <= j < views(v@).len() && views(v@)[j] == x@;
            assert(v@[j]@ == x@);
        }
    }
    false
}

/// `a` comes no later than `b` in the order of `String`'s `Ord`: lexicographic by code point
/// (UTF-8 bytes order strings as their code points do).
pub open spec fn lex_le(a: Seq<char>, b: Seq<char>) -> bool
    decreases a.len(),
{
    if a.len() == 0 {
        true
    } else if b.len() == 0 {
        false
    } else if (a[0] as u32) < (b[0] as u32) {
        true
    } else if (a[0] as u32) > (b[0] as u32) {
        false
    } else {
        lex_le(a.drop_first(), b.drop_first())
    }
}

/// `x` inserted into `s` before the first element that it does not come after.
pub open spec fn insert_lex(s: Seq<Seq<char>>, x: Seq<char>) -> Seq<Seq<char>>
    decreases s.len(),
{
    if s.len() == 0 {
        seq![x]
    } else if lex_le(x, s[0]) {
        seq![x] + s
    } else {
        seq![s[0]] + insert_lex(s.drop_first(), x)
    }
}

/// `s` sorted in ascending order by insertion, element by element.
pub open spec fn sort_lex(s: Seq<Seq<char>>) -> Seq<Seq<char>>
    decreases s.len(),
{
    if s.len() == 0 {
        Seq::empty()
    } else {
        insert_lex(sort_lex(s.drop_last()), s.last())
    }
}

/// Every element comes no later than the ones after it.
pub open spec fn ascending(s: Seq<Seq<char>>) -> bool {
    forall|i: int, j: int| 0 <= i < j < s.len() ==> lex_le(#[trigger] s[i], #[trigger] s[j])
}

/// `String`'s `<=`.
pub fn lex_le_exec(a: &String, b: &String) -> (r: bool)
    ensures
        r == lex_le(a@, b@),
{
    let x = chars_of(a.as_str());
    let y = chars_of(b.as_str());
    let mut i: usize = 0;
    assert(a@.subrange(0, a@.len() as int) =~= a@);
    assert(b@.subrange(0, b@.len() as int) =~= b@);
    while i < x.len() && i < y.len()
        invariant
            x@ == a@,
            y@ == b@,
            i <= x.len(),
            i <= y.len(),
            lex_le(a@, b@) == lex_le(a@.subrange(i as int, a@.len() as int), b@.subrange(i as int, b@.len() as int)),
        decreases x.len() - i,
    {
        let ghost sa = a@.subrange(i as int, a@.len() as int);
        let ghost sb = b@.subrange(i as int, b@.len() as int);
        assert(sa[0] == x@[i as int] && sb[0] == y@[i as int]);
        if (x[i] as u32) < (y[i] as u32) {
            return true;
        }
        if (x[i] as u32) > (y[i] as u32) {
            return false;
        }
        assert(sa.drop_first() =~= a@.subrange(i + 1, a@.len() as int));
        assert(sb.drop_first() =~= b@.subrange(i + 1, b@.len() as int));
        i = i + 1;
    }
    proof {
        let sa = a@.subrange(i as int, a@.len() as int);
        let sb = b@.subrange(i as int, b@.len() as int);
        if i == x.len() {
            assert(sa.len() == 0);
        } else {
            assert(sb.len() == 0);
        }
    }
    i == x.len()
}

proof fn lemma_insert_at(s: Seq<Seq<char>>, x: Seq<char>, p: int)
    requires
        0 <= p <= s.len(),
        forall|j: int| 0 <= j < p ==> !lex_le(x, #[trigger] s[j]),
        p < s.len() ==> lex_le(x, s[p]),
    ensures
        insert_lex(s, x) == s.insert(p, x),
    decreases s.len(),
{
    if s.len() == 0 {
        assert(s.insert(p, x) =~= seq![x]);
    } else if p == 0 {
        assert(s.insert(0, x) =~= seq![x] + s);
    } else {
        let t = s.drop_first();
        assert forall|j: int| 0 <= j < p - 1 implies !lex_le(x, #[trigger] t[j]) by {
            assert(t[j] == s[j + 1]);
        }
        lemma_insert_at(t, x, p - 1);
        assert(s.insert(p, x) =~= seq![s[0]] + t.insert(p - 1, x));
    }
}

/// The strings sorted in ascending order (insertion sort).
pub fn sort_strings(v: Vec<String>) -> (out: Vec<String>)
    ensures
        views(out@) == sort_lex(views(v@)),
{
    let mut out: Vec<String> = Vec::new();
    let mut i: usize = 0;
    while i < v.len()
        invariant
            i <= v.len(),
            views(out@) == sort_lex(views(v@).subrange(0, i as int)),
        decreases v.len() - i,
    {
        let ghost prefix = views(v@).subrange(0, i as int);
        assert(views(v@).subrange(0, i + 1).drop_last() =~= prefix);
        assert(views(v@)[i as int] == v@[i as int]@);
        let x = v[i].clone();
        let mut p: usize = 0;
        while p < out.len() && !lex_le_exec(&x, &out[p])
            invariant
                p <= out.len(),
                x@ == v@[i as int]@,
                forall|j: int| 0 <= j < p ==> !lex_le(x@, #[trigger] views(out@)[j]),
            decreases out.len() - p,
        {
            assert(views(out@)[p as int] == out@[p as int]@);
            p = p + 1;
        }
        proof {
            if p < out.len() {
                assert(views(out@)[p as int] == out@[p as int]@);
            }
            lemma_insert_at(views(out@), x@, p as int);
        }
        let ghost before = out@;
        out.insert(p, x);
        assert(views(out@) =~= views(before).insert(p as int, x@));
        i = i + 1;
    }
    assert(views(v@).subrange(0, v.len() as int) =~= views(v@));
    out
}

} // verus!
