use vstd::prelude::*;
use vstd::string::*;

verus! {

/// Whether `c` counts as whitespace: one of the characters that Unicode
/// gives the `White_Space` property.
pub open spec fn is_blank(c: char) -> bool {
    let u = c as u32;
    ||| 0x09 <= u <= 0x0d
    ||| u == 0x20
    ||| u == 0x85
    ||| u == 0xa0
    ||| u == 0x1680
    ||| 0x2000 <= u <= 0x200a
    ||| u == 0x2028
    ||| u == 0x2029
    ||| u == 0x202f
    ||| u == 0x205f
    ||| u == 0x3000
}

/// The lower-cased form of a text, as `str::to_lowercase` computes it.
pub uninterp spec fn lowercase(s: Seq<char>) -> Seq<char>;

/// The upper-cased form of a text, as `str::to_uppercase` computes it.
pub uninterp spec fn uppercase(s: Seq<char>) -> Seq<char>;

/// Whether `c` counts as whitespace.
pub fn char_is_blank(c: char) -> (b: bool)
    ensures
        b == is_blank(c),
{
    let u: u32 = c as u32;
    (0x09 <= u && u <= 0x0d) || u == 0x20 || u == 0x85 || u == 0xa0 || u == 0x1680 || (0x2000 <= u
        && u <= 0x200a) || u == 0x2028 || u == 0x2029 || u == 0x202f || u == 0x205f || u == 0x3000
}

/// Calls `str::to_lowercase`. Nothing is proved of it: the contract only
/// gives the result its name, `lowercase`.
#[verifier::external_body]
pub(crate) fn to_lower(s: &str) -> (r: String)
    ensures
        r@ == lowercase(s@),
{
    s.to_lowercase()
}

/// Calls `str::to_uppercase`. Nothing is proved of it: the contract only
/// gives the result its name, `uppercase`.
#[verifier::external_body]
pub(crate) fn to_upper(s: &str) -> (r: String)
    ensures
        r@ == uppercase(s@),
{
    s.to_uppercase()
}

/// The views of a sequence of strings, one for one.
pub open spec fn strs(v: Seq<String>) -> Seq<Seq<char>> {
    Seq::new(v.len(), |i: int| v[i]@)
}

/// The index of the first character at or after `i` that is not whitespace,
/// or the length of `s` where there is none.
pub open spec fn skip_blanks(s: Seq<char>, i: int) -> int
    decreases s.len() - i,
{
    if 0 <= i < s.len() && is_blank(s[i]) {
        skip_blanks(s, i + 1)
    } else {
        i
    }
}

/// The number of whitespace characters that `s` starts with.
pub open spec fn leading_blanks(s: Seq<char>) -> int {
    skip_blanks(s, 0)
}

/// What is left of a scan for words that stands at `i`, where the word in
/// progress, if any, began at `start`.
pub open spec fn words_scan(s: Seq<char>, start: int, i: int) -> Seq<Seq<char>>
    decreases s.len() - i,
{
    let pending = if start < i {
        seq![s.subrange(start, i)]
    } else {
        Seq::<Seq<char>>::empty()
    };
    if i < 0 || i >= s.len() {
        pending
    } else if is_blank(s[i]) {
        pending + words_scan(s, i + 1, i + 1)
    } else {
        words_scan(s, start, i + 1)
    }
}

/// The maximal runs of characters of `s` that are not whitespace, in order.
pub open spec fn words(s: Seq<char>) -> Seq<Seq<char>> {
    words_scan(s, 0, 0)
}

/// Whether two texts hold the same characters.
pub fn same_text(a: &str, b: &str) -> (r: bool)
    ensures
        r == (a@ == b@),
{
    let x = String::from_str(a);
    let y = String::from_str(b);
    x == y
}

/// An owned copy of the characters `from..to` of `s`.
pub fn slice_of(s: &str, from: usize, to: usize) -> (r: String)
    requires
        from <= to <= s@.len(),
    ensures
        r@ == s@.subrange(from as int, to as int),
{
    String::from_str(s.substring_char(from, to))
}

/// Splits `s` at whitespace into its words.
pub fn split_words(s: &str) -> (out: Vec<String>)
    ensures
        strs(out@) == words(s@),
        forall|k: int| 0 <= k < out@.len() ==> (#[trigger] out@[k])@.len() > 0,
{
    let n = s.unicode_len();
    let mut out: Vec<String> = Vec::new();
    let mut start: usize = 0;
    let mut i: usize = 0;
    assert(strs(out@) + words_scan(s@, 0, 0) =~= words(s@));
    while i < n
        invariant
            start <= i <= n,
            n == s@.len(),
            strs(out@) + words_scan(s@, start as int, i as int) == words(s@),
            forall|k: int| 0 <= k < out@.len() ==> (#[trigger] out@[k])@.len() > 0,
        decreases n - i,
    {
        let c = s.get_char(i);
        if char_is_blank(c) {
            if start < i {
                let w = slice_of(s, start, i);
                proof {
                    let rest = words_scan(s@, i as int + 1, i as int + 1);
                    assert(strs(out@.push(w)) =~= strs(out@) + seq![w@]);
                    assert((strs(out@) + seq![w@]) + rest =~= strs(out@) + (seq![w@] + rest));
                }
                out.push(w);
            }
            start = i + 1;
        }
        i = i + 1;
    }
    if start < i {
        let w = slice_of(s, start, i);
        proof {
            assert(strs(out@.push(w)) =~= strs(out@) + seq![w@]);
        }
        out.push(w);
    } else {
        assert(strs(out@) + Seq::<Seq<char>>::empty() =~= strs(out@));
    }
    out
}

/// The end of the text that is left when the whitespace before `j` is cut
/// off: the least index from which everything up to `j` is whitespace.
pub open spec fn trim_end(s: Seq<char>, j: int) -> int
    decreases j,
{
    if 0 < j <= s.len() && is_blank(s[j - 1]) {
        trim_end(s, j - 1)
    } else {
        j
    }
}

/// `s` without the whitespace at its two ends.
pub open spec fn trimmed(s: Seq<char>) -> Seq<char> {
    let a = skip_blanks(s, 0);
    let b = trim_end(s, s.len() as int);
    if a < b {
        s.subrange(a, b)
    } else {
        Seq::<char>::empty()
    }
}

/// The number of whitespace characters that `s` starts with.
pub fn count_leading_blanks(s: &str) -> (n: usize)
    ensures
        n == leading_blanks(s@),
        n <= s@.len(),
        forall|k: int| 0 <= k < n ==> is_blank(#[trigger] s@[k]),
        n < s@.len() ==> !is_blank(s@[n as int]),
{
    let len = s.unicode_len();
    let mut i: usize = 0;
    while i < len
        invariant
            i <= len,
            len == s@.len(),
            skip_blanks(s@, i as int) == skip_blanks(s@, 0),
            forall|k: int| 0 <= k < i ==> is_blank(#[trigger] s@[k]),
        decreases len - i,
    {
        if !char_is_blank(s.get_char(i)) {
            return i;
        }
        i = i + 1;
    }
    i
}

/// A copy of `s` without the whitespace at its two ends.
pub fn trim_text(s: &str) -> (r: String)
    ensures
        r@ == trimmed(s@),
{
    let len = s.unicode_len();
    let a = count_leading_blanks(s);
    if a == len {
        proof {
            lemma_trim_end(s@, len as int);
        }
        return String::new();
    }
    let mut j: usize = len;
    while char_is_blank(s.get_char(j - 1))
        invariant
            a < j <= len,
            len == s@.len(),
            !is_blank(s@[a as int]),
            trim_end(s@, j as int) == trim_end(s@, len as int),
        decreases j,
    {
        j = j - 1;
    }
    slice_of(s, a, j)
}

/// The whitespace that a text starts with ends inside the text, holds
/// only whitespace, and ends before a character that is none.
pub proof fn lemma_skip_blanks(s: Seq<char>, i: int)
    requires
        0 <= i <= s.len(),
    ensures
        i <= skip_blanks(s, i) <= s.len(),
        forall|k: int| i <= k < skip_blanks(s, i) ==> is_blank(#[trigger] s[k]),
        skip_blanks(s, i) < s.len() ==> !is_blank(s[skip_blanks(s, i)]),
    decreases s.len() - i,
{
    if i < s.len() && is_blank(s[i]) {
        lemma_skip_blanks(s, i + 1);
    }
}

/// The whitespace that is cut off before `j` starts inside the text and
/// holds only whitespace.
pub proof fn lemma_trim_end(s: Seq<char>, j: int)
    requires
        0 <= j <= s.len(),
    ensures
        0 <= trim_end(s, j) <= j,
        forall|k: int| trim_end(s, j) <= k < j ==> is_blank(#[trigger] s[k]),
    decreases j,
{
    if 0 < j && is_blank(s[j - 1]) {
        lemma_trim_end(s, j - 1);
    }
}

/// Whitespace alone holds no word.
pub proof fn lemma_words_of_blanks(s: Seq<char>, i: int)
    requires
        0 <= i <= s.len(),
        forall|k: int| i <= k < s.len() ==> is_blank(#[trigger] s[k]),
    ensures
        words_scan(s, i, i) == Seq::<Seq<char>>::empty(),
    decreases s.len() - i,
{
    if i < s.len() {
        lemma_words_of_blanks(s, i + 1);
        assert(Seq::<Seq<char>>::empty() + Seq::<Seq<char>>::empty() =~= Seq::<Seq<char>>::empty());
    }
}

/// Whitespace in front of a scan that has no word in progress changes
/// nothing.
pub proof fn lemma_words_skip_blanks(s: Seq<char>, i: int, a: int)
    requires
        0 <= i <= a <= s.len(),
        forall|k: int| i <= k < a ==> is_blank(#[trigger] s[k]),
    ensures
        words_scan(s, i, i) == words_scan(s, a, a),
    decreases a - i,
{
    if i < a {
        lemma_words_skip_blanks(s, i + 1, a);
        assert(Seq::<Seq<char>>::empty() + words_scan(s, i + 1, i + 1) =~= words_scan(
            s,
            i + 1,
            i + 1,
        ));
    }
}

/// Cutting off whitespace at the end changes no word.
pub proof fn lemma_words_cut_end(s: Seq<char>, start: int, i: int, b: int)
    requires
        0 <= start <= i <= b <= s.len(),
        forall|k: int| b <= k < s.len() ==> is_blank(#[trigger] s[k]),
    ensures
        words_scan(s.subrange(0, b), start, i) == words_scan(s, start, i),
    decreases b - i,
{
    let cut = s.subrange(0, b);
    assert(cut.subrange(start, i) =~= s.subrange(start, i));
    if i == b {
        if b < s.len() {
            lemma_words_of_blanks(s, b + 1);
            let pending = if start < i {
                seq![s.subrange(start, i)]
            } else {
                Seq::<Seq<char>>::empty()
            };
            assert(pending + Seq::<Seq<char>>::empty() =~= pending);
        }
    } else {
        assert(cut[i] == s[i]);
        if is_blank(s[i]) {
            lemma_words_cut_end(s, i + 1, i + 1, b);
        } else {
            lemma_words_cut_end(s, start, i + 1, b);
        }
    }
}

/// Cutting off the characters before `a` changes no word that starts at
/// `a` or behind it.
pub proof fn lemma_words_cut_start(s: Seq<char>, a: int, start: int, i: int)
    requires
        0 <= a <= start <= i <= s.len(),
    ensures
        words_scan(s.subrange(a, s.len() as int), start - a, i - a) == words_scan(s, start, i),
    decreases s.len() - i,
{
    let cut = s.subrange(a, s.len() as int);
    assert(cut.subrange(start - a, i - a) =~= s.subrange(start, i));
    if i < s.len() {
        assert(cut[i - a] == s[i]);
        if is_blank(s[i]) {
            lemma_words_cut_start(s, a, i + 1, i + 1);
        } else {
            lemma_words_cut_start(s, a, start, i + 1);
        }
    }
}

/// Trimming a text changes none of its words: to split a line is to split
/// the trimmed line.
pub proof fn lemma_words_of_trimmed(s: Seq<char>)
    ensures
        words(trimmed(s)) == words(s),
{
    let a = skip_blanks(s, 0);
    let b = trim_end(s, s.len() as int);
    lemma_skip_blanks(s, 0);
    lemma_trim_end(s, s.len() as int);
    if a < b {
        let cut = s.subrange(0, b);
        lemma_words_cut_end(s, 0, 0, b);
        assert forall|k: int| 0 <= k < a implies is_blank(#[trigger] cut[k]) by {
            assert(cut[k] == s[k]);
        }
        lemma_words_skip_blanks(cut, 0, a);
        lemma_words_cut_start(cut, a, a, a);
        assert(cut.subrange(a, cut.len() as int) =~= s.subrange(a, b));
    } else {
        if a < s.len() {
            assert(!is_blank(s[a]));
            assert(false);
        }
        lemma_words_of_blanks(s, 0);
    }
}

} // verus!
