//! Character-level helpers shared by the request parser and the line search.

use vstd::prelude::*;

verus! {

/// `String::push` appends one character to the end of the string.
pub assume_specification[ String::push ](s: &mut String, c: char)
    ensures
        final(s)@ == old(s)@.push(c),
;

/// The characters that carry the Unicode `White_Space` property.
pub open spec fn is_whitespace(c: char) -> bool {
    let u = c as u32;
    ||| 0x09 <= u <= 0x0D
    ||| u == 0x20
    ||| u == 0x85
    ||| u == 0xA0
    ||| u == 0x1680
    ||| 0x2000 <= u <= 0x200A
    ||| u == 0x2028
    ||| u == 0x2029
    ||| u == 0x202F
    ||| u == 0x205F
    ||| u == 0x3000
}

/// The predicate that holds of every character except white space.
pub open spec fn not_whitespace() -> spec_fn(char) -> bool {
    |c: char| !is_whitespace(c)
}

/// How many characters at the start of `s` satisfy `keep` before the first one
/// that does not.
pub open spec fn leading(s: Seq<char>, keep: spec_fn(char) -> bool) -> nat
    decreases s.len(),
{
    if s.len() == 0 || !keep(s[0]) {
        0
    } else {
        1 + leading(s.drop_first(), keep)
    }
}

/// The run counted by `leading` lies within `s`, holds only characters that
/// satisfy `keep`, and ends at the end of `s` or at a character that does not.
pub proof fn lemma_leading(s: Seq<char>, keep: spec_fn(char) -> bool)
    ensures
        leading(s, keep) <= s.len(),
        forall|i: int| 0 <= i < leading(s, keep) ==> keep(#[trigger] s[i]),
        leading(s, keep) < s.len() ==> !keep(s[leading(s, keep) as int]),
    decreases s.len(),
{
    if s.len() != 0 && keep(s[0]) {
        let t = s.drop_first();
        lemma_leading(t, keep);
        assert forall|i: int| 0 <= i < leading(s, keep) implies keep(#[trigger] s[i]) by {
            if i > 0 {
                assert(s[i] == t[i - 1]);
            }
        }
        if leading(s, keep) < s.len() {
            assert(s[leading(s, keep) as int] == t[leading(t, keep) as int]);
        }
    }
}

/// A position `k` that every character before it satisfies `keep`, and that is
/// the end of `s` or a character that does not, is the one `leading` counts to.
pub proof fn lemma_leading_is(s: Seq<char>, keep: spec_fn(char) -> bool, k: int)
    requires
        0 <= k <= s.len(),
        forall|i: int| 0 <= i < k ==> keep(#[trigger] s[i]),
        k < s.len() ==> !keep(s[k]),
    ensures
        leading(s, keep) == k,
    decreases s.len(),
{
    if k > 0 {
        let t = s.drop_first();
        assert(keep(s[0]));
        assert forall|i: int| 0 <= i < k - 1 implies keep(#[trigger] t[i]) by {
            assert(t[i] == s[i + 1]);
        }
        lemma_leading_is(t, keep, k - 1);
    }
}

/// The maximal runs of characters of `s` that hold no white space, in order.
pub open spec fn split_whitespace(s: Seq<char>) -> Seq<Seq<char>>
    decreases s.len(),
    via split_whitespace_decreases
{
    if s.len() == 0 {
        Seq::empty()
    } else if is_whitespace(s[0]) {
        split_whitespace(s.drop_first())
    } else {
        let n = leading(s, not_whitespace()) as int;
        seq![s.take(n)] + split_whitespace(s.skip(n))
    }
}

#[via_fn]
proof fn split_whitespace_decreases(s: Seq<char>) {
    if s.len() != 0 && !is_whitespace(s[0]) {
        lemma_leading(s, not_whitespace());
    }
}

/// A word: at least one character, and no white space.
pub open spec fn is_word(w: Seq<char>) -> bool {
    &&& w.len() > 0
    &&& forall|j: int| 0 <= j < w.len() ==> !is_whitespace(#[trigger] w[j])
}

/// Everything that `split_whitespace` gives is a word.
pub proof fn lemma_split_gives_words(s: Seq<char>)
    ensures
        forall|i: int|
            0 <= i < split_whitespace(s).len() ==> is_word(#[trigger] split_whitespace(s)[i]),
    decreases s.len(),
{
    if s.len() == 0 {
        assert(split_whitespace(s).len() == 0);
    } else if is_whitespace(s[0]) {
        lemma_split_gives_words(s.drop_first());
        assert(split_whitespace(s) == split_whitespace(s.drop_first()));
    } else {
        lemma_leading(s, not_whitespace());
        let n = leading(s, not_whitespace()) as int;
        lemma_split_gives_words(s.skip(n));
        let first = s.take(n);
        let later = split_whitespace(s.skip(n));
        assert(n > 0) by {
            assert((not_whitespace())(s[0]));
        }
        assert(split_whitespace(s) == seq![first] + later);
        assert forall|j: int| 0 <= j < first.len() implies !is_whitespace(#[trigger] first[j]) by {
            assert((not_whitespace())(s[j]));
        }
        assert(is_word(first));
        assert forall|i: int| 0 <= i < split_whitespace(s).len() implies is_word(
            #[trigger] split_whitespace(s)[i],
        ) by {
            if i > 0 {
                assert(split_whitespace(s)[i] == later[i - 1]);
            } else {
                assert(split_whitespace(s)[0] == first);
            }
        }
    }
}

/// The predicate that holds of every character except the line feed.
pub open spec fn not_newline() -> spec_fn(char) -> bool {
    |c: char| c != '\n'
}

/// `s` without one carriage return at its end, if it has one.
pub open spec fn strip_cr(s: Seq<char>) -> Seq<char> {
    if s.len() > 0 && s.last() == '\r' {
        s.drop_last()
    } else {
        s
    }
}

/// The lines of `s`. A line ends at a line feed, or at a carriage return
/// directly followed by one; neither belongs to the line. Text after the last
/// line feed is a line as it stands, and an empty text has no lines.
pub open spec fn lines(s: Seq<char>) -> Seq<Seq<char>>
    decreases s.len(),
    via lines_decreases
{
    let n = leading(s, not_newline()) as int;
    if s.len() == 0 {
        Seq::empty()
    } else if n >= s.len() {
        seq![s]
    } else {
        seq![strip_cr(s.take(n))] + lines(s.skip(n + 1))
    }
}

#[via_fn]
proof fn lines_decreases(s: Seq<char>) {
    lemma_leading(s, not_newline());
}

/// `pattern` stands in `s` at position `i`.
pub open spec fn occurs_at(s: Seq<char>, pattern: Seq<char>, i: int) -> bool {
    &&& 0 <= i
    &&& i + pattern.len() <= s.len()
    &&& s.subrange(i, i + pattern.len()) == pattern
}

/// `pattern` stands somewhere in `s`.
pub open spec fn has_substring(s: Seq<char>, pattern: Seq<char>) -> bool {
    exists|i: int| occurs_at(s, pattern, i)
}

/// Decides whether `c` is a white-space character.
pub fn char_is_whitespace(c: char) -> (b: bool)
    ensures
        b == is_whitespace(c),
{
    let u: u32 = c as u32;
    (0x09 <= u && u <= 0x0D) || u == 0x20 || u == 0x85 || u == 0xA0 || u == 0x1680 || (0x2000 <= u
        && u <= 0x200A) || u == 0x2028 || u == 0x2029 || u == 0x202F || u == 0x205F || u == 0x3000
}

/// The characters of `s`, in order.
pub fn chars_of(s: &str) -> (v: Vec<char>)
    ensures
        v@ == s@,
{
    let mut v: Vec<char> = Vec::new();
    for c in it: s.chars()
        invariant
            v@ == it.seq().take(it.index() as int),
            it.seq() == s@,
    {
        v.push(c);
    }
    v
}

/// The string made of the characters `chars[from..to]`.
pub fn string_of(chars: &Vec<char>, from: usize, to: usize) -> (s: String)
    requires
        from <= to <= chars.len(),
    ensures
        s@ == chars@.subrange(from as int, to as int),
{
    let mut s = String::new();
    let mut i: usize = from;
    while i < to
        invariant
            from <= i <= to <= chars.len(),
            s@ == chars@.subrange(from as int, i as int),
        decreases to - i,
    {
        s.push(chars[i]);
        i += 1;
    }
    s
}

/// Decides whether `chars` begins with the characters of `prefix`.
pub fn has_prefix(chars: &Vec<char>, prefix: &Vec<char>) -> (b: bool)
    ensures
        b == prefix@.is_prefix_of(chars@),
{
    if prefix.len() > chars.len() {
        return false;
    }
    let mut i: usize = 0;
    while i < prefix.len()
        invariant
            i <= prefix.len() <= chars.len(),
            forall|k: int| 0 <= k < i ==> prefix@[k] == chars@[k],
        decreases prefix.len() - i,
    {
        if prefix[i] != chars[i] {
            assert(chars@.subrange(0, prefix.len() as int)[i as int] != prefix@[i as int]);
            return false;
        }
        i += 1;
    }
    assert(chars@.subrange(0, prefix.len() as int) == prefix@);
    true
}

/// Decides whether `chars` spells exactly `text`.
pub fn spells(chars: &Vec<char>, text: &str) -> (b: bool)
    ensures
        b == (chars@ == text@),
{
    let wanted = chars_of(text);
    let b = wanted.len() == chars.len() && has_prefix(chars, &wanted);
    proof {
        if b {
            assert(chars@.subrange(0, wanted.len() as int) == chars@);
        }
    }
    b
}

/// Decides whether two strings hold the same characters.
pub fn same_text(a: &str, b: &str) -> (r: bool)
    ensures
        r == (a@ == b@),
{
    let chars = chars_of(a);
    spells(&chars, b)
}

/// Splits `chars` at white space into its words, as `split_whitespace` does.
pub fn words(chars: &Vec<char>) -> (out: Vec<Vec<char>>)
    ensures
        out.deep_view() == split_whitespace(chars@),
{
    let n = chars.len();
    let mut out: Vec<Vec<char>> = Vec::new();
    let mut i: usize = 0;
    assert(out.deep_view() =~= Seq::empty());
    assert(chars@.skip(0) =~= chars@);
    while i < n
        invariant
            n == chars.len(),
            i <= n,
            split_whitespace(chars@) == out.deep_view() + split_whitespace(chars@.skip(i as int)),
        decreases n - i,
    {
        let ghost rest = chars@.skip(i as int);
        if char_is_whitespace(chars[i]) {
            assert(rest.drop_first() == chars@.skip(i + 1));
            i += 1;
        } else {
            let mut word: Vec<char> = Vec::new();
            let start = i;
            while i < n && !char_is_whitespace(chars[i])
                invariant
                    n == chars.len(),
                    start <= i <= n,
                    word@ == chars@.subrange(start as int, i as int),
                    forall|k: int| start <= k < i ==> !is_whitespace(#[trigger] chars@[k]),
                decreases n - i,
            {
                word.push(chars[i]);
                i += 1;
            }
            proof {
                let k = i - start;
                assert forall|j: int| 0 <= j < k implies (not_whitespace())(#[trigger] rest[j]) by {
                    assert(rest[j] == chars@[start + j]);
                }
                lemma_leading_is(rest, not_whitespace(), k);
                assert(rest.take(k) == word@);
                assert(rest.skip(k) == chars@.skip(i as int));
                assert(out.deep_view().push(word@) == out.deep_view() + seq![word@]);
            }
            let ghost before = out.deep_view();
            out.push(word);
            assert(out.deep_view() =~~= before.push(word@));
        }
    }
    assert(chars@.skip(n as int) == Seq::<char>::empty());
    out
}

/// Decides whether `pattern` stands in `chars` at position `at`.
fn matches_at(chars: &Vec<char>, pattern: &Vec<char>, at: usize) -> (b: bool)
    requires
        at + pattern.len() <= chars.len(),
    ensures
        b == occurs_at(chars@, pattern@, at as int),
{
    let mut k: usize = 0;
    while k < pattern.len()
        invariant
            k <= pattern.len(),
            at + pattern.len() <= chars.len(),
            forall|j: int| 0 <= j < k ==> chars@[at + j] == pattern@[j],
        decreases pattern.len() - k,
    {
        if chars[at + k] != pattern[k] {
            assert(chars@.subrange(at as int, at + pattern.len())[k as int] != pattern@[k as int]);
            return false;
        }
        k += 1;
    }
    assert(chars@.subrange(at as int, at + pattern.len()) == pattern@);
    true
}

/// Decides whether `pattern` stands somewhere in `chars`.
pub fn contains(chars: &Vec<char>, pattern: &Vec<char>) -> (b: bool)
    ensures
        b == has_substring(chars@, pattern@),
{
    if pattern.len() > chars.len() {
        return false;
    }
    let last = chars.len() - pattern.len();
    let mut i: usize = 0;
    loop
        invariant
            last == chars.len() - pattern.len(),
            i <= last,
            forall|k: int| 0 <= k < i ==> !occurs_at(chars@, pattern@, k),
        decreases last - i,
    {
        if matches_at(chars, pattern, i) {
            return true;
        }
        if i == last {
            return false;
        }
        i += 1;
    }
}

/// Splits `chars` into its lines, as `lines` does.
pub fn split_lines(chars: &Vec<char>) -> (out: Vec<Vec<char>>)
    ensures
        out.deep_view() == lines(chars@),
{
    let n = chars.len();
    let mut out: Vec<Vec<char>> = Vec::new();
    let mut i: usize = 0;
    assert(out.deep_view() =~= Seq::empty());
    assert(chars@.skip(0) =~= chars@);
    while i < n
        invariant
            n == chars.len(),
            i <= n,
            lines(chars@) == out.deep_view() + lines(chars@.skip(i as int)),
        decreases n - i,
    {
        let ghost rest = chars@.skip(i as int);
        let start = i;
        while i < n && chars[i] != '\n'
            invariant
                n == chars.len(),
                start <= i <= n,
                forall|k: int| start <= k < i ==> chars@[k] != '\n',
            decreases n - i,
        {
            i += 1;
        }
        let stop = i;
        proof {
            assert forall|j: int| 0 <= j < stop - start implies (not_newline())(
                #[trigger] rest[j],
            ) by {
                assert(rest[j] == chars@[start + j]);
            }
            lemma_leading_is(rest, not_newline(), stop - start);
        }
        let mut end = stop;
        if stop < n {
            if end > start && chars[end - 1] == '\r' {
                end -= 1;
            }
            i = stop + 1;
        }
        let mut line: Vec<char> = Vec::new();
        let mut k: usize = start;
        while k < end
            invariant
                start <= k <= end <= chars.len(),
                line@ == chars@.subrange(start as int, k as int),
            decreases end - k,
        {
            line.push(chars[k]);
            k += 1;
        }
        proof {
            let whole = rest.take(stop - start);
            assert(whole == chars@.subrange(start as int, stop as int));
            if stop < n {
                assert(strip_cr(whole) == line@);
                assert(rest.skip(stop - start + 1) == chars@.skip(i as int));
            } else {
                assert(rest == line@);
                assert(chars@.skip(i as int).len() == 0);
            }
            assert(out.deep_view().push(line@) == out.deep_view() + seq![line@]);
        }
        let ghost before = out.deep_view();
        out.push(line);
        assert(out.deep_view() =~~= before.push(line@));
    }
    assert(chars@.skip(n as int) == Seq::<char>::empty());
    out
}

} // verus!
