use vstd::prelude::*;
use vstd::string::StrSliceExecFns;

verus! {

/// The ASCII whitespace characters: space, tab, line feed, form feed,
/// carriage return.
pub open spec fn is_ascii_ws(c: char) -> bool {
    c == ' ' || c == '\t' || c == '\n' || c == '\u{0c}' || c == '\r'
}

/// How many bytes the character takes in UTF-8.
pub open spec fn utf8_len(c: char) -> nat {
    if (c as u32) < 0x80 {
        1
    } else if (c as u32) < 0x800 {
        2
    } else if (c as u32) < 0x10000 {
        3
    } else {
        4
    }
}

/// How many bytes of the line's UTF-8 encoding are not ASCII whitespace:
/// every byte of a multi-byte character lies outside the ASCII range, so a
/// non-whitespace character contributes its full encoded length.
pub open spec fn nonws_bytes(s: Seq<char>) -> nat
    decreases s.len(),
{
    if s.len() == 0 {
        0
    } else {
        nonws_bytes(s.drop_last()) + if is_ascii_ws(s.last()) {
            0nat
        } else {
            utf8_len(s.last())
        }
    }
}

/// How many words the line holds: maximal runs of non-whitespace characters,
/// counted at the position where each run starts.
pub open spec fn word_count(s: Seq<char>) -> nat
    decreases s.len(),
{
    if s.len() == 0 {
        0
    } else {
        word_count(s.drop_last()) + if !is_ascii_ws(s.last()) && (s.len() == 1 || is_ascii_ws(
            s[s.len() - 2],
        )) {
            1nat
        } else {
            0nat
        }
    }
}

/// Words summed over all lines.
pub open spec fn total_words(v: Seq<Seq<char>>) -> nat
    decreases v.len(),
{
    if v.len() == 0 {
        0
    } else {
        total_words(v.drop_last()) + word_count(v.last())
    }
}

/// Non-whitespace bytes summed over all lines.
pub open spec fn total_nonws(v: Seq<Seq<char>>) -> nat
    decreases v.len(),
{
    if v.len() == 0 {
        0
    } else {
        total_nonws(v.drop_last()) + nonws_bytes(v.last())
    }
}

/// Runtime check of `is_ascii_ws`.
fn is_ws(c: char) -> (b: bool)
    ensures
        b == is_ascii_ws(c),
{
    c == ' ' || c == '\t' || c == '\n' || c == '\u{0c}' || c == '\r'
}

/// Runtime form of `utf8_len`.
fn utf8_len_of(c: char) -> (n: usize)
    ensures
        n == utf8_len(c),
{
    let u = c as u32;
    if u < 0x80 {
        1
    } else if u < 0x800 {
        2
    } else if u < 0x10000 {
        3
    } else {
        4
    }
}

/// A prefix of the line never counts more bytes than the whole line.
proof fn lemma_nonws_bytes_line_prefix(s: Seq<char>, k: int)
    requires
        0 <= k <= s.len(),
    ensures
        nonws_bytes(s.take(k)) <= nonws_bytes(s),
    decreases s.len() - k,
{
    if k < s.len() {
        lemma_nonws_bytes_line_prefix(s, k + 1);
        let t = s.take(k + 1);
        assert(t.drop_last() =~= s.take(k));
        assert(t.last() == s[k]);
    } else {
        assert(s.take(k) =~= s);
    }
}

/// Words and non-whitespace bytes of one line.
fn line_counts(s: &str) -> (r: (usize, usize))
    requires
        nonws_bytes(s@) <= usize::MAX,
    ensures
        r.0 == word_count(s@),
        r.1 == nonws_bytes(s@),
{
    let n = s.unicode_len();
    let mut words: usize = 0;
    let mut bytes: usize = 0;
    let mut prev_ws: bool = true;
    let mut i: usize = 0;
    while i < n
        invariant
            i <= n,
            n == s@.len(),
            nonws_bytes(s@) <= usize::MAX,
            words == word_count(s@.take(i as int)),
            bytes == nonws_bytes(s@.take(i as int)),
            words <= i,
            bytes <= nonws_bytes(s@),
            prev_ws == (i == 0 || is_ascii_ws(s@[i - 1])),
        decreases n - i,
    {
        let c = s.get_char(i);
        let ws = is_ws(c);
        proof {
            let t = s@.take(i + 1);
            assert(t.drop_last() =~= s@.take(i as int));
            assert(t.last() == s@[i as int]);
            lemma_nonws_bytes_line_prefix(s@, i + 1);
        }
        if !ws {
            bytes += utf8_len_of(c);
            if prev_ws {
                words += 1;
            }
        }
        prev_ws = ws;
        i += 1;
    }
    proof {
        assert(s@.take(n as int) =~= s@);
    }
    (words, bytes)
}

/// A prefix of the lines never counts more words than the whole.
proof fn lemma_total_words_prefix(v: Seq<Seq<char>>, k: int)
    requires
        0 <= k <= v.len(),
    ensures
        total_words(v.take(k)) <= total_words(v),
    decreases v.len() - k,
{
    if k < v.len() {
        lemma_total_words_prefix(v, k + 1);
        let t = v.take(k + 1);
        assert(t.drop_last() =~= v.take(k));
        assert(t.last() == v[k]);
    } else {
        assert(v.take(k) =~= v);
    }
}

/// A prefix of the lines never counts more bytes than the whole.
proof fn lemma_total_nonws_prefix(v: Seq<Seq<char>>, k: int)
    requires
        0 <= k <= v.len(),
    ensures
        total_nonws(v.take(k)) <= total_nonws(v),
    decreases v.len() - k,
{
    if k < v.len() {
        lemma_total_nonws_prefix(v, k + 1);
        let t = v.take(k + 1);
        assert(t.drop_last() =~= v.take(k));
        assert(t.last() == v[k]);
    } else {
        assert(v.take(k) =~= v);
    }
}

/// The word count and the non-whitespace byte count of a file's lines.
pub fn count_words_characters(file_vec: &Vec<String>) -> (r: (usize, usize))
    requires
        total_words(file_vec@.map_values(|s: String| s@)) <= usize::MAX,
        total_nonws(file_vec@.map_values(|s: String| s@)) <= usize::MAX,
    ensures
        r.0 == total_words(file_vec@.map_values(|s: String| s@)),
        r.1 == total_nonws(file_vec@.map_values(|s: String| s@)),
{
    let ghost v = file_vec@.map_values(|s: String| s@);
    let mut word_total: usize = 0;
    let mut byte_total: usize = 0;
    let mut i: usize = 0;
    while i < file_vec.len()
        invariant
            i <= file_vec.len(),
            v == file_vec@.map_values(|s: String| s@),
            total_words(v) <= usize::MAX,
            total_nonws(v) <= usize::MAX,
            word_total == total_words(v.take(i as int)),
            byte_total == total_nonws(v.take(i as int)),
        decreases file_vec.len() - i,
    {
        proof {
            let t = v.take(i + 1);
            assert(t.drop_last() =~= v.take(i as int));
            assert(t.last() == v[i as int]);
            lemma_total_words_prefix(v, i + 1);
            lemma_total_nonws_prefix(v, i + 1);
            assert(file_vec@[i as int]@ == v[i as int]);
        }
        let (w, c) = line_counts(file_vec[i].as_str());
        word_total += w;
        byte_total += c;
        i += 1;
    }
    proof {
        assert(v.take(file_vec@.len() as int) =~= v);
    }
    (word_total, byte_total)
}

} // verus!
