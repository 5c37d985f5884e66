//! Text primitives over Unicode scalar values.

use vstd::prelude::*;
use vstd::string::*;

verus! {

/// The code points that carry the Unicode `White_Space` property.
pub open spec fn is_white(c: char) -> bool {
    let p = c as u32;
    ||| 0x09 <= p <= 0x0d
    ||| p == 0x20
    ||| p == 0x85
    ||| p == 0xa0
    ||| p == 0x1680
    ||| 0x2000 <= p <= 0x200a
    ||| p == 0x2028
    ||| p == 0x2029
    ||| p == 0x202f
    ||| p == 0x205f
    ||| p == 0x3000
}

pub fn is_whitespace(c: char) -> (r: bool)
    ensures
        r == is_white(c),
{
    let p: u32 = c as u32;
    (0x09 <= p && p <= 0x0d) || p == 0x20 || p == 0x85 || p == 0xa0 || p == 0x1680 || (0x2000 <= p
        && p <= 0x200a) || p == 0x2028 || p == 0x2029 || p == 0x202f || p == 0x205f || p == 0x3000
}

/// Appending one character: `String::push` puts it at the end and changes nothing else.
pub assume_specification[ String::push ](s: &mut String, c: char)
    ensures
        final(s)@ == old(s)@.push(c),
;

/// The characters of `s` as a vector.
pub fn chars_of(s: &str) -> (r: Vec<char>)
    ensures
        r@ == s@,
{
    let mut r: Vec<char> = Vec::new();
    for c in it: s.chars()
        invariant
            r@ == it.seq().take(it.index()),
            it.seq() == s@,
    {
        r.push(c);
    }
    r
}

/// The characters `from..to` of `chars` as a string.
pub fn string_of(chars: &Vec<char>, from: usize, to: usize) -> (r: String)
    requires
        from <= to <= chars@.len(),
    ensures
        r@ == chars@.subrange(from as int, to as int),
{
    let mut r = String::new();
    let mut i: usize = from;
    while i < to
        invariant
            from <= i <= to <= chars@.len(),
            r@ == chars@.subrange(from as int, i as int),
        decreases to - i,
    {
        r.push(chars[i]);
        i += 1;
    }
    r
}

pub fn str_eq(a: &str, b: &str) -> (r: bool)
    ensures
        r == (a@ == b@),
{
    let x = chars_of(a);
    let y = chars_of(b);
    if x.len() != y.len() {
        return false;
    }
    let mut i: usize = 0;
    while i < x.len()
        invariant
            i <= x@.len() == y@.len(),
            x@ == a@,
            y@ == b@,
            forall|k: int| 0 <= k < i ==> x@[k] == y@[k],
        decreases x@.len() - i,
    {
        if x[i] != y[i] {
            assert(a@[i as int] != b@[i as int]);
            return false;
        }
        i += 1;
    }
    assert(a@ =~= b@);
    true
}


/// The views of a sequence of strings.
pub open spec fn texts(v: Seq<String>) -> Seq<Seq<char>> {
    v.map_values(|s: String| s@)
}

/// The view of an optional string.
pub open spec fn text_opt(o: Option<String>) -> Option<Seq<char>> {
    match o {
        Some(s) => Some(s@),
        None => None,
    }
}

/// The view of an optional string slice.
pub open spec fn str_opt(o: Option<&str>) -> Option<Seq<char>> {
    match o {
        Some(s) => Some(s@),
        None => None,
    }
}

pub fn clone_opt(o: &Option<String>) -> (r: Option<String>)
    ensures
        r == *o,
{
    match o {
        Some(s) => Some(s.clone()),
        None => None,
    }
}

pub fn borrow_opt(o: &Option<String>) -> (r: Option<&str>)
    ensures
        str_opt(r) == text_opt(*o),
{
    match o {
        Some(s) => Some(s.as_str()),
        None => None,
    }
}

pub fn opt_eq(a: Option<&str>, b: Option<&str>) -> (r: bool)
    ensures
        r == (str_opt(a) == str_opt(b)),
{
    match (a, b) {
        (Some(x), Some(y)) => str_eq(x, y),
        (None, None) => true,
        _ => false,
    }
}

/// `s` without its leading white space.
pub open spec fn trim_start(s: Seq<char>) -> Seq<char>
    decreases s.len(),
{
    if s.len() > 0 && is_white(s[0]) {
        trim_start(s.drop_first())
    } else {
        s
    }
}

/// `s` without its trailing white space.
pub open spec fn trim_end(s: Seq<char>) -> Seq<char>
    decreases s.len(),
{
    if s.len() > 0 && is_white(s.last()) {
        trim_end(s.drop_last())
    } else {
        s
    }
}

/// `s` without leading and trailing white space.
pub open spec fn trimmed(s: Seq<char>) -> Seq<char> {
    trim_end(trim_start(s))
}

/// The length of the run of non-white characters that `s` starts with.
pub open spec fn word_len(s: Seq<char>) -> nat
    decreases s.len(),
{
    if s.len() > 0 && !is_white(s[0]) {
        1 + word_len(s.drop_first())
    } else {
        0
    }
}

pub proof fn lemma_trim_start_len(s: Seq<char>)
    ensures
        trim_start(s).len() <= s.len(),
        trim_start(s).len() > 0 ==> !is_white(trim_start(s)[0]),
    decreases s.len(),
{
    if s.len() > 0 && is_white(s[0]) {
        lemma_trim_start_len(s.drop_first());
    }
}

pub proof fn lemma_word_len(s: Seq<char>)
    ensures
        word_len(s) <= s.len(),
        forall|i: int| 0 <= i < word_len(s) ==> !is_white(#[trigger] s[i]),
        word_len(s) < s.len() ==> is_white(s[word_len(s) as int]),
    decreases s.len(),
{
    if s.len() > 0 && !is_white(s[0]) {
        lemma_word_len(s.drop_first());
        assert forall|i: int| 0 <= i < word_len(s) implies !is_white(#[trigger] s[i]) by {
            if i > 0 {
                assert(s[i] == s.drop_first()[i - 1]);
            }
        }
    }
}

/// The maximal runs of non-white characters of `s`, in order.
pub open spec fn words(s: Seq<char>) -> Seq<Seq<char>>
    decreases s.len(),
{
    proof {
        lemma_trim_start_len(s);
        lemma_word_len(trim_start(s));
    }
    let t = trim_start(s);
    let n = word_len(t) as int;
    if t.len() == 0 {
        seq![]
    } else {
        seq![t.take(n)] + words(t.skip(n))
    }
}

/// Leading white space does not change the words of a text.
pub proof fn lemma_words_skip_white(s: Seq<char>)
    requires
        s.len() > 0,
        is_white(s[0]),
    ensures
        words(s) == words(s.drop_first()),
{
    lemma_trim_start_len(s);
    lemma_trim_start_len(s.drop_first());
    lemma_word_len(trim_start(s));
}

/// A text that starts with a word: the word, then the words of what follows.
pub proof fn lemma_words_first(s: Seq<char>)
    requires
        s.len() > 0,
        !is_white(s[0]),
    ensures
        0 < word_len(s) <= s.len(),
        words(s) == seq![s.take(word_len(s) as int)] + words(s.skip(word_len(s) as int)),
{
    lemma_word_len(s);
}

/// Splits at Unicode white space; the words are never empty.
pub fn split_words(text: &str) -> (r: Vec<String>)
    ensures
        texts(r@) == words(text@),
{
    let s = chars_of(text);
    let n: usize = s.len();
    let mut r: Vec<String> = Vec::new();
    let mut i: usize = 0;
    assert(s@.skip(0) =~= s@);
    while i < n
        invariant
            i <= n == s@.len(),
            s@ == text@,
            texts(r@) + words(s@.skip(i as int)) == words(s@),
        decreases n - i,
    {
        let ghost rest = s@.skip(i as int);
        if is_whitespace(s[i]) {
            proof {
                lemma_words_skip_white(rest);
                assert(rest.drop_first() =~= s@.skip(i + 1));
            }
            i += 1;
        } else {
            let mut j: usize = i;
            assert(s@.skip(j as int) =~= rest);
            while j < n && !is_whitespace(s[j])
                invariant
                    i <= j <= n == s@.len(),
                    word_len(s@.skip(i as int)) == (j - i) + word_len(s@.skip(j as int)),
                decreases n - j,
            {
                assert(s@.skip(j as int).drop_first() =~= s@.skip(j + 1));
                j += 1;
            }
            proof {
                lemma_words_first(rest);
                assert(word_len(s@.skip(j as int)) == 0);
                assert(rest.take(j - i) =~= s@.subrange(i as int, j as int));
                assert(rest.skip(j - i) =~= s@.skip(j as int));
            }
            let ghost before = r@;
            r.push(string_of(&s, i, j));
            proof {
                assert(texts(r@) =~= texts(before) + seq![s@.subrange(i as int, j as int)]);
                assert(texts(r@) + words(s@.skip(j as int)) =~= texts(before) + (seq![
                    s@.subrange(i as int, j as int),
                ] + words(s@.skip(j as int))));
            }
            i = j;
        }
    }
    assert(words(s@.skip(n as int)) =~= seq![]) by {
        lemma_trim_start_len(s@.skip(n as int));
    }
    assert(texts(r@) =~= words(s@));
    r
}

/// The text without white space at either end.
pub fn trim(text: &str) -> (r: String)
    ensures
        r@ == trimmed(text@),
{
    let s = chars_of(text);
    let mut i: usize = 0;
    assert(s@.skip(0) =~= s@);
    while i < s.len() && is_whitespace(s[i])
        invariant
            i <= s@.len(),
            trim_start(s@.skip(i as int)) == trim_start(s@),
        decreases s@.len() - i,
    {
        assert(s@.skip(i as int).drop_first() =~= s@.skip(i + 1));
        i += 1;
    }
    assert(trim_start(s@) == s@.skip(i as int));
    let mut j: usize = s.len();
    assert(s@.subrange(i as int, j as int) =~= s@.skip(i as int));
    while i < j && is_whitespace(s[j - 1])
        invariant
            i <= j <= s@.len(),
            trim_end(s@.subrange(i as int, j as int)) == trim_end(s@.skip(i as int)),
        decreases j,
    {
        assert(s@.subrange(i as int, j as int).drop_last() =~= s@.subrange(i as int, j - 1));
        assert(s@.subrange(i as int, j as int).last() == s@[j - 1]);
        j -= 1;
    }
    proof {
        if i < j {
            assert(s@.subrange(i as int, j as int).last() == s@[j - 1]);
        }
    }
    string_of(&s, i, j)
}

/// What Unicode uppercasing makes of a text.
pub uninterp spec fn uppercase(s: Seq<char>) -> Seq<char>;

pub open spec fn ascii_upper(c: char) -> char {
    if 'a' <= c <= 'z' {
        ((c as u32) - 32) as char
    } else {
        c
    }
}

pub open spec fn ascii_lower(c: char) -> char {
    if 'A' <= c <= 'Z' {
        ((c as u32) + 32) as char
    } else {
        c
    }
}

pub open spec fn all_ascii(s: Seq<char>) -> bool {
    forall|i: int| 0 <= i < s.len() ==> (#[trigger] s[i] as u32) < 128
}

/// `str::to_uppercase`: the Unicode uppercase of the text, a function of the text alone, which for
/// ASCII text maps each of the letters a to z to its capital and keeps every other character.
#[verifier::external_body]
fn unicode_uppercase(text: &str) -> (r: String)
    ensures
        r@ == uppercase(text@),
        all_ascii(text@) ==> r@ == text@.map_values(|c: char| ascii_upper(c)),
{
    text.to_uppercase()
}

/// The text in capitals.
pub open spec fn uppercased(s: Seq<char>) -> Seq<char> {
    if all_ascii(s) {
        s.map_values(|c: char| ascii_upper(c))
    } else {
        uppercase(s)
    }
}

pub fn to_uppercase(text: &str) -> (r: String)
    ensures
        r@ == uppercased(text@),
{
    unicode_uppercase(text)
}

fn lower_char(c: char) -> (r: char)
    ensures
        r == ascii_lower(c),
{
    if 'A' <= c && c <= 'Z' {
        let p: u8 = (c as u8) + 32;
        p as char
    } else {
        c
    }
}

/// The text with the letters A to Z in lower case.
pub open spec fn lowered(s: Seq<char>) -> Seq<char> {
    s.map_values(|c: char| ascii_lower(c))
}

/// Equality that does not tell A to Z from a to z.
pub open spec fn same_ignoring_case(a: Seq<char>, b: Seq<char>) -> bool {
    lowered(a) == lowered(b)
}

pub fn to_ascii_lowercase(text: &str) -> (r: String)
    ensures
        r@ == lowered(text@),
{
    let s = chars_of(text);
    let mut r = String::new();
    let mut i: usize = 0;
    while i < s.len()
        invariant
            i <= s@.len(),
            r@ == lowered(s@.take(i as int)),
        decreases s@.len() - i,
    {
        r.push(lower_char(s[i]));
        assert(lowered(s@.take(i + 1)) =~= lowered(s@.take(i as int)).push(ascii_lower(s@[i as int])));
        i += 1;
    }
    assert(s@.take(i as int) =~= s@);
    r
}

pub fn eq_ignore_ascii_case(a: &str, b: &str) -> (r: bool)
    ensures
        r == same_ignoring_case(a@, b@),
{
    let x = to_ascii_lowercase(a);
    let y = to_ascii_lowercase(b);
    x == y
}


pub open spec fn has_prefix(s: Seq<char>, prefix: Seq<char>) -> bool {
    prefix.len() <= s.len() && s.take(prefix.len() as int) == prefix
}

/// `pattern` stands in `s` at position `i`.
pub open spec fn occurs_at(s: Seq<char>, pattern: Seq<char>, i: int) -> bool {
    0 <= i && i + pattern.len() <= s.len() && s.subrange(i, i + pattern.len()) == pattern
}

/// The first position at or after `from` at which `pattern` stands in `s`.
pub open spec fn first_at_or_after(s: Seq<char>, pattern: Seq<char>, from: int) -> Option<int>
    decreases s.len() + 1 - from,
{
    if from + pattern.len() > s.len() {
        None
    } else if occurs_at(s, pattern, from) {
        Some(from)
    } else {
        first_at_or_after(s, pattern, from + 1)
    }
}

/// What follows the first `separator` in `s`.
pub open spec fn after_first(s: Seq<char>, separator: Seq<char>) -> Option<Seq<char>> {
    match first_at_or_after(s, separator, 0) {
        Some(i) => Some(s.skip(i + separator.len())),
        None => None,
    }
}

fn matches_at(s: &Vec<char>, pattern: &Vec<char>, i: usize) -> (r: bool)
    requires
        i + pattern@.len() <= s@.len(),
    ensures
        r == occurs_at(s@, pattern@, i as int),
{
    let len: usize = s.len();
    let mut k: usize = 0;
    while k < pattern.len()
        invariant
            len == s@.len(),
            k <= pattern@.len(),
            i + pattern@.len() <= s@.len(),
            s@.subrange(i as int, i + k) == pattern@.take(k as int),
        decreases pattern@.len() - k,
    {
        if s[i + k] != pattern[k] {
            assert(s@.subrange(i as int, i + pattern@.len())[k as int] != pattern@[k as int]);
            return false;
        }
        assert(s@.subrange(i as int, i + k + 1) =~= s@.subrange(i as int, i + k).push(
            s@[i + k],
        ));
        assert(pattern@.take(k + 1) =~= pattern@.take(k as int).push(pattern@[k as int]));
        k += 1;
    }
    assert(pattern@.take(k as int) =~= pattern@);
    true
}

pub fn starts_with(text: &str, prefix: &str) -> (r: bool)
    ensures
        r == has_prefix(text@, prefix@),
{
    let s = chars_of(text);
    let p = chars_of(prefix);
    if p.len() > s.len() {
        return false;
    }
    assert(s@.subrange(0, p@.len() as int) =~= s@.take(p@.len() as int));
    matches_at(&s, &p, 0)
}

/// What follows the first `separator` in `text`, or `None` where there is none.
pub fn split_after(text: &str, separator: &str) -> (r: Option<String>)
    ensures
        text_opt(r) == after_first(text@, separator@),
{
    let s = chars_of(text);
    let p = chars_of(separator);
    let mut i: usize = 0;
    while i <= s.len() && p.len() <= s.len() - i
        invariant
            i <= s@.len() + 1,
            s@ == text@,
            p@ == separator@,
            first_at_or_after(s@, p@, 0) == first_at_or_after(s@, p@, i as int),
        decreases s@.len() + 1 - i,
    {
        if matches_at(&s, &p, i) {
            assert(s@.subrange(i + p@.len(), s@.len() as int) =~= s@.skip(i + p@.len()));
            return Some(string_of(&s, i + p.len(), s.len()));
        }
        if i == s.len() {
            assert(s@.subrange(i as int, i as int) =~= p@);
            return None;
        }
        i += 1;
    }
    None
}

/// Lexicographic order by code point.
pub open spec fn text_lt(a: Seq<char>, b: Seq<char>) -> bool
    decreases a.len(),
{
    if b.len() == 0 {
        false
    } else if a.len() == 0 {
        true
    } else if a[0] != b[0] {
        a[0] < b[0]
    } else {
        text_lt(a.drop_first(), b.drop_first())
    }
}

pub proof fn lemma_text_lt_irreflexive(a: Seq<char>)
    ensures
        !text_lt(a, a),
    decreases a.len(),
{
    if a.len() > 0 {
        lemma_text_lt_irreflexive(a.drop_first());
    }
}

pub proof fn lemma_text_lt_transitive(a: Seq<char>, b: Seq<char>, c: Seq<char>)
    requires
        text_lt(a, b),
        text_lt(b, c),
    ensures
        text_lt(a, c),
    decreases a.len(),
{
    if a.len() > 0 && a[0] == b[0] && b[0] == c[0] {
        lemma_text_lt_transitive(a.drop_first(), b.drop_first(), c.drop_first());
    }
}

pub proof fn lemma_text_lt_total(a: Seq<char>, b: Seq<char>)
    ensures
        text_lt(a, b) || text_lt(b, a) || a == b,
    decreases a.len(),
{
    if a.len() > 0 && b.len() > 0 && a[0] == b[0] {
        lemma_text_lt_total(a.drop_first(), b.drop_first());
        if a.drop_first() == b.drop_first() {
            assert(a =~= seq![a[0]] + a.drop_first());
            assert(b =~= seq![b[0]] + b.drop_first());
        }
    } else if a.len() == 0 && b.len() == 0 {
        assert(a =~= b);
    }
}

pub fn text_less(a: &str, b: &str) -> (r: bool)
    ensures
        r == text_lt(a@, b@),
{
    let x = chars_of(a);
    let y = chars_of(b);
    let mut i: usize = 0;
    assert(x@.skip(0) =~= x@);
    assert(y@.skip(0) =~= y@);
    while i < x.len() && i < y.len()
        invariant
            i <= x@.len(),
            i <= y@.len(),
            x@ == a@,
            y@ == b@,
            text_lt(a@, b@) == text_lt(x@.skip(i as int), y@.skip(i as int)),
        decreases x@.len() - i,
    {
        if x[i] != y[i] {
            return x[i] < y[i];
        }
        assert(x@.skip(i as int).drop_first() =~= x@.skip(i + 1));
        assert(y@.skip(i as int).drop_first() =~= y@.skip(i + 1));
        i += 1;
    }
    i < y.len()
}

/// Whether there is no character in it.
pub fn is_empty_text(text: &str) -> (r: bool)
    ensures
        r == (text@.len() == 0),
{
    chars_of(text).len() == 0
}

/// `sorted` with `x` in its place, unless it is there already.
pub open spec fn sorted_with(sorted: Seq<Seq<char>>, x: Seq<char>) -> Seq<Seq<char>>
    decreases sorted.len(),
{
    if sorted.len() == 0 {
        seq![x]
    } else if sorted[0] == x {
        sorted
    } else if text_lt(x, sorted[0]) {
        seq![x] + sorted
    } else {
        seq![sorted[0]] + sorted_with(sorted.drop_first(), x)
    }
}

pub open spec fn ascending(s: Seq<Seq<char>>) -> bool {
    forall|i: int, j: int| 0 <= i < j < s.len() ==> text_lt(#[trigger] s[i], #[trigger] s[j])
}

/// Putting a text into an ascending sequence leaves it ascending and adds that text only.
pub proof fn lemma_sorted_with(sorted: Seq<Seq<char>>, x: Seq<char>)
    requires
        ascending(sorted),
    ensures
        ascending(sorted_with(sorted, x)),
        sorted_with(sorted, x).to_set() == sorted.to_set().insert(x),
    decreases sorted.len(),
{
    let r = sorted_with(sorted, x);
    if sorted.len() == 0 {
        assert(r[0] == x);
        assert(r.to_set() =~= sorted.to_set().insert(x));
    } else if sorted[0] == x {
        assert(r.to_set() =~= sorted.to_set().insert(x));
    } else if text_lt(x, sorted[0]) {
        assert forall|i: int, j: int| 0 <= i < j < r.len() implies text_lt(
            #[trigger] r[i],
            #[trigger] r[j],
        ) by {
            if i == 0 && j > 1 {
                assert(text_lt(sorted[0], sorted[j - 1]));
                lemma_text_lt_transitive(x, sorted[0], sorted[j - 1]);
            } else if i > 0 {
                assert(text_lt(sorted[i - 1], sorted[j - 1]));
            }
        }
        assert forall|y: Seq<char>| #[trigger] r.to_set().contains(y) == sorted.to_set().insert(
            x,
        ).contains(y) by {
            if sorted.contains(y) {
                let k = sorted.index_of(y);
                assert(r[k + 1] == y);
            }
            assert(r[0] == x);
        }
        assert(r.to_set() =~= sorted.to_set().insert(x));
    } else {
        let rest = sorted.drop_first();
        let tail = sorted_with(rest, x);
        assert(ascending(rest)) by {
            assert forall|i: int, j: int| 0 <= i < j < rest.len() implies text_lt(
                #[trigger] rest[i],
                #[trigger] rest[j],
            ) by {
                assert(text_lt(sorted[i + 1], sorted[j + 1]));
            }
        }
        lemma_sorted_with(rest, x);
        lemma_text_lt_total(x, sorted[0]);
        assert forall|i: int, j: int| 0 <= i < j < r.len() implies text_lt(
            #[trigger] r[i],
            #[trigger] r[j],
        ) by {
            if i == 0 {
                assert(tail.to_set().contains(tail[j - 1]));
                if tail[j - 1] != x {
                    assert(rest.to_set().contains(tail[j - 1]));
                    let k = rest.index_of(tail[j - 1]);
                    assert(text_lt(sorted[0], sorted[k + 1]));
                }
            } else {
                assert(text_lt(tail[i - 1], tail[j - 1]));
            }
        }
        assert forall|y: Seq<char>| #[trigger] r.to_set().contains(y) == sorted.to_set().insert(
            x,
        ).contains(y) by {
            assert(r[0] == sorted[0]);
            assert(tail.to_set().contains(y) == rest.to_set().insert(x).contains(y));
            if r.contains(y) {
                let k = r.index_of(y);
                if k > 0 {
                    assert(tail[k - 1] == y);
                    if rest.contains(y) {
                        let m = rest.index_of(y);
                        assert(sorted[m + 1] == y);
                    }
                }
            }
            if tail.contains(y) {
                let k = tail.index_of(y);
                assert(r[k + 1] == y);
            }
            if sorted.contains(y) {
                let k = sorted.index_of(y);
                if k > 0 {
                    assert(rest[k - 1] == y);
                }
            }
        }
        assert(r.to_set() =~= sorted.to_set().insert(x));
    }
}

pub fn insert_sorted(sorted: &mut Vec<String>, x: String)
    ensures
        texts(final(sorted)@) == sorted_with(texts(old(sorted)@), x@),
{
    let ghost all = texts(sorted@);
    let mut i: usize = 0;
    assert(all.take(0) + sorted_with(all.skip(0), x@) =~= sorted_with(all, x@)) by {
        assert(all.skip(0) =~= all);
    }
    while i < sorted.len() && text_less(sorted[i].as_str(), x.as_str())
        invariant
            i <= sorted@.len(),
            all == texts(sorted@),
            sorted_with(all, x@) == all.take(i as int) + sorted_with(all.skip(i as int), x@),
        decreases sorted@.len() - i,
    {
        proof {
            lemma_text_lt_irreflexive(x@);
            if text_lt(x@, all[i as int]) {
                lemma_text_lt_transitive(x@, all[i as int], x@);
            }
        }
        assert(all.skip(i as int)[0] == sorted@[i as int]@);
        assert(all.skip(i as int).drop_first() =~= all.skip(i + 1));
        assert(all.take(i as int) + (seq![all[i as int]] + sorted_with(all.skip(i + 1), x@))
            =~= all.take(i + 1) + sorted_with(all.skip(i + 1), x@));
        i += 1;
    }
    if i < sorted.len() {
        assert(all.skip(i as int)[0] == sorted@[i as int]@);
        if str_eq(sorted[i].as_str(), x.as_str()) {
            assert(all.take(i as int) + all.skip(i as int) =~= all);
            return ;
        }
        proof {
            lemma_text_lt_total(x@, all[i as int]);
        }
    }
    sorted.insert(i, x);
    assert(texts(sorted@) =~= all.take(i as int) + (seq![x@] + all.skip(i as int)));
    assert(all.skip(i as int).len() == 0 ==> seq![x@] + all.skip(i as int) =~= seq![x@]);
}

pub open spec fn digit_char(d: int) -> char {
    if d == 0 { '0' } else if d == 1 { '1' } else if d == 2 { '2' } else if d == 3 { '3' }
    else if d == 4 { '4' } else if d == 5 { '5' } else if d == 6 { '6' } else if d == 7 { '7' }
    else if d == 8 { '8' } else if d == 9 { '9' } else if d == 10 { 'A' } else if d == 11 { 'B' }
    else if d == 12 { 'C' } else if d == 13 { 'D' } else if d == 14 { 'E' } else { 'F' }
}

fn digit(d: u128) -> (r: char)
    requires
        d < 16,
    ensures
        r == digit_char(d as int),
{
    match d {
        0 => '0',
        1 => '1',
        2 => '2',
        3 => '3',
        4 => '4',
        5 => '5',
        6 => '6',
        7 => '7',
        8 => '8',
        9 => '9',
        10 => 'A',
        11 => 'B',
        12 => 'C',
        13 => 'D',
        14 => 'E',
        _ => 'F',
    }
}

/// The numeral of `n` to the base `base`, without leading zeros.
pub open spec fn numeral(n: nat, base: nat) -> Seq<char>
    decreases n,
{
    if base < 2 || n < base {
        seq![digit_char(n as int)]
    } else {
        proof {
            assert(n / base < n) by (nonlinear_arith)
                requires
                    n >= base >= 2,
            ;
        }
        numeral(n / base, base).push(digit_char((n % base) as int))
    }
}

pub open spec fn decimal(n: nat) -> Seq<char> {
    numeral(n, 10)
}

fn numeral_text(n: u128, base: u128) -> (r: String)
    requires
        2 <= base <= 16,
    ensures
        r@ == numeral(n as nat, base as nat),
    decreases n,
{
    if n < base {
        let mut r = String::new();
        r.push(digit(n));
        assert(r@ =~= seq![digit_char(n as int)]);
        r
    } else {
        assert(n / base < n) by (nonlinear_arith)
            requires
                n >= base >= 2,
        ;
        let mut r = numeral_text(n / base, base);
        r.push(digit(n % base));
        r
    }
}

/// The decimal numeral of `n`.
pub fn decimal_text(n: u64) -> (r: String)
    ensures
        r@ == decimal(n as nat),
{
    numeral_text(n as u128, 10)
}

/// The decimal numeral of a larger `n`.
pub fn long_decimal_text(n: u128) -> (r: String)
    ensures
        r@ == decimal(n as nat),
{
    numeral_text(n, 10)
}

/// `s` with zeros in front, up to `width` characters.
pub open spec fn zero_padded(s: Seq<char>, width: nat) -> Seq<char> {
    Seq::new((if s.len() < width { width - s.len() } else { 0 }) as nat, |i: int| '0') + s
}

fn pad_zeros(s: &str, width: usize) -> (r: String)
    ensures
        r@ == zero_padded(s@, width as nat),
{
    let len: usize = chars_of(s).len();
    let mut r = String::new();
    let mut k: usize = len;
    while k < width
        invariant
            len == s@.len(),
            len <= k,
            k <= width || k == len,
            r@ == Seq::new((k - len) as nat, |i: int| '0'),
        decreases width - k,
    {
        r.push('0');
        k += 1;
        assert(r@ =~= Seq::new((k - len) as nat, |i: int| '0'));
    }
    r.append(s);
    r
}

/// The decimal numeral of `n`, zero-padded to `width` digits.
pub fn padded_decimal(n: u64, width: usize) -> (r: String)
    ensures
        r@ == zero_padded(decimal(n as nat), width as nat),
{
    let d = decimal_text(n);
    pad_zeros(d.as_str(), width)
}

/// The capital hexadecimal numeral of `n`, zero-padded to `width` digits.
pub fn padded_hex(n: u64, width: usize) -> (r: String)
    ensures
        r@ == zero_padded(numeral(n as nat, 16), width as nat),
{
    let d = numeral_text(n as u128, 16);
    pad_zeros(d.as_str(), width)
}

/// A signal report: a sign and at least two digits.
pub open spec fn signed_report(db: int) -> Seq<char> {
    if db < 0 {
        seq!['-'] + zero_padded(decimal((-db) as nat), 2)
    } else {
        seq!['+'] + zero_padded(decimal(db as nat), 2)
    }
}

pub fn report_text(db: i16) -> (r: String)
    ensures
        r@ == signed_report(db as int),
{
    let mut r = String::new();
    let wide: i64 = db as i64;
    let size: u64 = if wide < 0 {
        r.push('-');
        (-wide) as u64
    } else {
        r.push('+');
        wide as u64
    };
    assert(r@ =~= seq![r@[0]]);
    let digits = padded_decimal(size, 2);
    r.append(digits.as_str());
    r
}

/// The parts with `separator` between each two neighbours.
pub open spec fn joined(parts: Seq<Seq<char>>, separator: Seq<char>) -> Seq<char>
    decreases parts.len(),
{
    if parts.len() == 0 {
        seq![]
    } else if parts.len() == 1 {
        parts[0]
    } else {
        joined(parts.drop_last(), separator) + separator + parts.last()
    }
}

pub fn join(parts: &Vec<String>, separator: &str) -> (r: String)
    ensures
        r@ == joined(texts(parts@), separator@),
{
    let mut r = String::new();
    let mut i: usize = 0;
    assert(r@ =~= joined(texts(parts@).take(0), separator@));
    while i < parts.len()
        invariant
            i <= parts@.len(),
            r@ == joined(texts(parts@).take(i as int), separator@),
        decreases parts@.len() - i,
    {
        let ghost next = texts(parts@).take(i + 1);
        assert(next.drop_last() =~= texts(parts@).take(i as int));
        assert(next.last() == parts@[i as int]@);
        if i > 0 {
            r.append(separator);
        } else {
            assert(r@ =~= seq![]);
        }
        r.append(parts[i].as_str());
        assert(r@ =~= joined(next, separator@));
        i += 1;
    }
    assert(texts(parts@).take(i as int) =~= texts(parts@));
    r
}

pub fn cat2(a: &str, b: &str) -> (r: String)
    ensures
        r@ == a@ + b@,
{
    let mut r = a.to_owned();
    r.append(b);
    r
}

pub fn cat3(a: &str, b: &str, c: &str) -> (r: String)
    ensures
        r@ == a@ + b@ + c@,
{
    let mut r = cat2(a, b);
    r.append(c);
    r
}

/// What a run of digits stands for in the decimal system.
pub open spec fn value_of(digits: Seq<char>) -> int
    decreases digits.len(),
{
    if digits.len() == 0 {
        0
    } else {
        10 * value_of(digits.drop_last()) + (digits.last() as int - '0' as int)
    }
}

proof fn lemma_decimal_digit(d: int)
    requires
        0 <= d < 10,
    ensures
        digit_char(d) as int - '0' as int == d,
        '0' <= digit_char(d) <= '9',
{
}

/// The decimal numeral of a number is made of digits, stands for the number, and has no zero in
/// front but for zero itself.
pub proof fn law_decimal_stands_for_its_number(n: nat)
    ensures
        value_of(decimal(n)) == n,
        decimal(n).len() > 0,
        forall|i: int| 0 <= i < decimal(n).len() ==> '0' <= #[trigger] decimal(n)[i] <= '9',
        n > 0 ==> decimal(n)[0] != '0',
        n < 10 ==> decimal(n).len() == 1,
        10 <= n < 100 ==> decimal(n).len() == 2,
    decreases n,
{
    if n < 10 {
        lemma_decimal_digit(n as int);
        assert(decimal(n) =~= seq![digit_char(n as int)]);
        assert(decimal(n).drop_last() =~= Seq::<char>::empty());
        assert(value_of(Seq::<char>::empty()) == 0);
    } else {
        let rest = decimal(n / 10);
        law_decimal_stands_for_its_number(n / 10);
        lemma_decimal_digit((n % 10) as int);
        assert(decimal(n) == rest.push(digit_char((n % 10) as int)));
        assert(decimal(n).drop_last() =~= rest);
        assert forall|i: int| 0 <= i < decimal(n).len() implies '0' <= #[trigger] decimal(n)[i]
            <= '9' by {
            if i < rest.len() {
                assert(decimal(n)[i] == rest[i]);
            }
        }
        assert(decimal(n)[0] == rest[0]);
    }
}

/// Padding puts zeros in front until the width is reached, and changes nothing that is wide enough.
pub proof fn law_padding_fills_up(s: Seq<char>, width: nat)
    ensures
        zero_padded(s, width).len() == (if s.len() < width {
            width
        } else {
            s.len()
        }),
        zero_padded(s, width).skip(zero_padded(s, width).len() - s.len()) == s,
        forall|i: int|
            0 <= i < zero_padded(s, width).len() - s.len() ==> #[trigger] zero_padded(s, width)[i]
                == '0',
{
    assert(zero_padded(s, width).skip(zero_padded(s, width).len() - s.len()) =~= s);
}

/// A signal report is its sign and at least two digits, and stands for its number.
pub proof fn law_report_stands_for_its_number(db: int)
    ensures
        ({
            let digits = signed_report(db).drop_first();
            &&& signed_report(db)[0] == (if db < 0 {
                '-'
            } else {
                '+'
            })
            &&& digits.len() >= 2
            &&& -100 < db < 100 ==> digits.len() == 2
            &&& value_of(digits) == (if db < 0 {
                -db
            } else {
                db
            })
            &&& forall|i: int| 0 <= i < digits.len() ==> '0' <= #[trigger] digits[i] <= '9'
        }),
{
    let size: nat = (if db < 0 {
        -db
    } else {
        db
    }) as nat;
    let digits = zero_padded(decimal(size), 2);
    law_decimal_stands_for_its_number(size);
    law_padding_fills_up(decimal(size), 2);
    assert(signed_report(db).drop_first() =~= digits);
    lemma_value_of_padded(decimal(size), 2);
}

pub proof fn lemma_value_of_padded(s: Seq<char>, width: nat)
    ensures
        value_of(zero_padded(s, width)) == value_of(s),
    decreases s.len() + width,
{
    let padded = zero_padded(s, width);
    if s.len() == 0 {
        if width > 0 {
            lemma_value_of_padded(s, (width - 1) as nat);
            assert(padded.drop_last() =~= zero_padded(s, (width - 1) as nat));
        } else {
            assert(padded =~= s);
        }
    } else if width == 0 {
        assert(padded =~= s);
    } else {
        assert(padded.last() == s.last());
        assert(padded.drop_last() =~= zero_padded(s.drop_last(), (width - 1) as nat));
        lemma_value_of_padded(s.drop_last(), (width - 1) as nat);
    }
}

proof fn lemma_trim_start(s: Seq<char>) -> (a: int)
    ensures
        0 <= a <= s.len(),
        trim_start(s) == s.skip(a),
        forall|i: int| 0 <= i < a ==> is_white(#[trigger] s[i]),
        a < s.len() ==> !is_white(s[a]),
    decreases s.len(),
{
    if s.len() > 0 && is_white(s[0]) {
        let rest = s.drop_first();
        let a = lemma_trim_start(rest);
        assert(rest.skip(a) =~= s.skip(a + 1));
        assert forall|i: int| 0 <= i < a + 1 implies is_white(#[trigger] s[i]) by {
            if i > 0 {
                assert(rest[i - 1] == s[i]);
            }
        }
        if a < rest.len() {
            assert(rest[a] == s[a + 1]);
        }
        a + 1
    } else {
        assert(s.skip(0) =~= s);
        0
    }
}

proof fn lemma_trim_end(s: Seq<char>) -> (b: int)
    ensures
        0 <= b <= s.len(),
        trim_end(s) == s.take(b),
        forall|i: int| b <= i < s.len() ==> is_white(#[trigger] s[i]),
        b > 0 ==> !is_white(s[b - 1]),
    decreases s.len(),
{
    if s.len() > 0 && is_white(s.last()) {
        let rest = s.drop_last();
        let b = lemma_trim_end(rest);
        assert(rest.take(b) =~= s.take(b));
        assert forall|i: int| b <= i < s.len() implies is_white(#[trigger] s[i]) by {
            if i < rest.len() {
                assert(rest[i] == s[i]);
            }
        }
        if b > 0 {
            assert(rest[b - 1] == s[b - 1]);
        }
        b
    } else {
        assert(s.take(s.len() as int) =~= s);
        s.len() as int
    }
}

/// Trimming takes off the white space at both ends and nothing else: what is left neither begins nor
/// ends with white space, and what is gone is white space.
pub proof fn law_trimming_takes_white_space_off(s: Seq<char>) -> (cut: (int, int))
    ensures
        0 <= cut.0 <= cut.1 <= s.len(),
        trimmed(s) == s.subrange(cut.0, cut.1),
        forall|i: int| 0 <= i < cut.0 || cut.1 <= i < s.len() ==> is_white(#[trigger] s[i]),
        trimmed(s).len() > 0 ==> !is_white(trimmed(s)[0]) && !is_white(trimmed(s).last()),
        trimmed(trimmed(s)) == trimmed(s),
{
    let a = lemma_trim_start(s);
    let rest = s.skip(a);
    let b = lemma_trim_end(rest);
    let inner = trimmed(s);
    assert(rest.take(b) =~= s.subrange(a, a + b));
    assert forall|i: int| 0 <= i < a || a + b <= i < s.len() implies is_white(#[trigger] s[i]) by {
        if i >= a {
            assert(rest[i - a] == s[i]);
        }
    }
    if inner.len() > 0 {
        assert(inner[0] == s[a]);
        assert(inner.last() == rest[b - 1]);
    }
    assert(trim_start(inner) == inner);
    assert(trim_end(inner) == inner);
    (a, a + b)
}

proof fn lemma_word_len_is(word: Seq<char>, rest: Seq<char>)
    requires
        forall|i: int| 0 <= i < word.len() ==> !is_white(#[trigger] word[i]),
        rest.len() > 0 ==> is_white(rest[0]),
    ensures
        word_len(word + rest) == word.len(),
    decreases word.len(),
{
    let all = word + rest;
    if word.len() > 0 {
        assert(all[0] == word[0]);
        assert(all.drop_first() =~= word.drop_first() + rest);
        assert forall|i: int| 0 <= i < word.drop_first().len() implies !is_white(
            #[trigger] word.drop_first()[i],
        ) by {
            assert(word.drop_first()[i] == word[i + 1]);
        }
        lemma_word_len_is(word.drop_first(), rest);
    } else {
        assert(all =~= rest);
    }
}

/// A text is its first word and, behind the white space after it, the words of the rest; white space
/// in front does not count, and a text without a word has none.
pub proof fn law_words_are_parted_by_white_space(word: Seq<char>, gap: char, rest: Seq<char>)
    requires
        word.len() > 0,
        forall|i: int| 0 <= i < word.len() ==> !is_white(#[trigger] word[i]),
        is_white(gap),
    ensures
        words(word) == seq![word],
        words(word + seq![gap] + rest) == seq![word] + words(rest),
        words(seq![gap] + rest) == words(rest),
        words(Seq::<char>::empty()) == Seq::<Seq<char>>::empty(),
{
    let tail = seq![gap] + rest;
    let all = word + tail;
    assert(word + seq![gap] + rest =~= all);
    lemma_words_skip_white(tail);
    assert(tail.drop_first() =~= rest);
    lemma_word_len_is(word, tail);
    assert(all[0] == word[0]);
    lemma_words_first(all);
    assert(all.take(word.len() as int) =~= word);
    assert(all.skip(word.len() as int) =~= tail);
    lemma_word_len_is(word, Seq::empty());
    assert(word + Seq::<char>::empty() =~= word);
    assert(word[0] == word[0]);
    lemma_words_first(word);
    assert(word.take(word.len() as int) =~= word);
    assert(word.skip(word.len() as int) =~= Seq::<char>::empty());
    assert(words(Seq::<char>::empty()) =~= Seq::<Seq<char>>::empty());
    assert(words(word) =~= seq![word]);
}

/// Two texts are the same but for case when they have one length and each two letters at one place
/// are the same or differ in case only.
pub proof fn law_same_but_for_case(a: Seq<char>, b: Seq<char>)
    ensures
        same_ignoring_case(a, b) <==> a.len() == b.len() && forall|i: int|
            0 <= i < a.len() ==> (#[trigger] a[i]) == b[i] || ('A' <= a[i] <= 'Z' && b[i] as int
                == a[i] as int + 32) || ('A' <= b[i] <= 'Z' && a[i] as int == b[i] as int + 32),
        all_ascii(a) ==> same_ignoring_case(a, uppercased(a)),
{
    let x = lowered(a);
    let y = lowered(b);
    if same_ignoring_case(a, b) {
        assert(x.len() == y.len());
        assert forall|i: int| 0 <= i < a.len() implies (#[trigger] a[i]) == b[i] || ('A' <= a[i]
            <= 'Z' && b[i] as int == a[i] as int + 32) || ('A' <= b[i] <= 'Z' && a[i] as int
            == b[i] as int + 32) by {
            assert(x[i] == ascii_lower(a[i]) && y[i] == ascii_lower(b[i]));
            lemma_lowered(a[i], b[i]);
        }
    }
    if a.len() == b.len() && forall|i: int|
        0 <= i < a.len() ==> (#[trigger] a[i]) == b[i] || ('A' <= a[i] <= 'Z' && b[i] as int
            == a[i] as int + 32) || ('A' <= b[i] <= 'Z' && a[i] as int == b[i] as int + 32) {
        assert forall|i: int| 0 <= i < a.len() implies #[trigger] x[i] == y[i] by {
            assert(a[i] == b[i] || ('A' <= a[i] <= 'Z' && b[i] as int == a[i] as int + 32) || ('A'
                <= b[i] <= 'Z' && a[i] as int == b[i] as int + 32));
            lemma_lowered(a[i], b[i]);
        }
        assert(x =~= y);
    }
    if all_ascii(a) {
        let up = uppercased(a);
        assert forall|i: int| 0 <= i < a.len() implies #[trigger] lowered(up)[i] == x[i] by {
            lemma_lowered(up[i], a[i]);
        }
        assert(lowered(up) =~= x);
    }
}

proof fn lemma_lowered(a: char, b: char)
    ensures
        ascii_lower(a) == ascii_lower(b) <==> a == b || ('A' <= a <= 'Z' && b as int == a as int
            + 32) || ('A' <= b <= 'Z' && a as int == b as int + 32),
        ascii_lower(ascii_upper(a)) == ascii_lower(a),
{
    lemma_shift(a);
    lemma_shift(b);
    lemma_shift(ascii_upper(a));
}

pub proof fn lemma_shift(c: char)
    ensures
        'A' <= c <= 'Z' ==> ascii_lower(c) as int == c as int + 32,
        !('A' <= c <= 'Z') ==> ascii_lower(c) == c,
        'a' <= c <= 'z' ==> ascii_upper(c) as int == c as int - 32,
        !('a' <= c <= 'z') ==> ascii_upper(c) == c,
{
}

/// Texts are ordered by the first place at which they differ, and a text comes before each that goes
/// on from it.
pub proof fn law_order_of_texts(
    head: Seq<char>,
    x: char,
    y: char,
    rest_x: Seq<char>,
    rest_y: Seq<char>,
)
    requires
        x != y,
    ensures
        text_lt(head + seq![x] + rest_x, head + seq![y] + rest_y) <==> x < y,
        text_lt(head, head + seq![x] + rest_x),
        !text_lt(head + seq![x] + rest_x, head),
    decreases head.len(),
{
    let a = head + seq![x] + rest_x;
    let b = head + seq![y] + rest_y;
    if head.len() > 0 {
        let tail = head.drop_first();
        law_order_of_texts(tail, x, y, rest_x, rest_y);
        assert(a.drop_first() =~= tail + seq![x] + rest_x);
        assert(b.drop_first() =~= tail + seq![y] + rest_y);
        assert(a[0] == head[0] && b[0] == head[0]);
    } else {
        assert(a[0] == x && b[0] == y);
    }
}

/// A number below a million has six digits at most.
pub proof fn lemma_six_digits(n: nat)
    requires
        n < 1_000_000,
    ensures
        decimal(n).len() <= 6,
{
    reveal_with_fuel(numeral, 7);
}

/// White space are the characters that Unicode counts as such, one by one.
pub proof fn law_what_white_space_is(c: char)
    ensures
        is_white(c) <==> {
            let p = c as u32;
            ||| p == 0x09 || p == 0x0a || p == 0x0b || p == 0x0c || p == 0x0d || p == 0x20
            ||| p == 0x85 || p == 0xa0 || p == 0x1680
            ||| p == 0x2000 || p == 0x2001 || p == 0x2002 || p == 0x2003 || p == 0x2004
            ||| p == 0x2005 || p == 0x2006 || p == 0x2007 || p == 0x2008 || p == 0x2009
            ||| p == 0x200a || p == 0x2028 || p == 0x2029 || p == 0x202f || p == 0x205f
            ||| p == 0x3000
        },
{
}

} // verus!
