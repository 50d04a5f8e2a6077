use vstd::prelude::*;
use vstd::string::StrSliceExecFns;

verus! {

/// Relies on std's String::push: appends one character at the end.
pub assume_specification[ String::push ](s: &mut String, c: char)
    ensures
        final(s)@ == old(s)@.push(c),
;

/// Position of the next occurrence of `target` in `word_vec` at or after
/// `start`, if any.
pub fn find_next_word_pos(word_vec: &Vec<char>, target: &char, start: usize) -> (r: Option<usize>)
    ensures
        (r matches Some(p) ==> {
            &&& start <= p < word_vec@.len()
            &&& word_vec@[p as int] == *target
            &&& forall|j: int| start <= j < p ==> word_vec@[j] != *target
        }),
        r is None ==> forall|j: int| start <= j < word_vec@.len() ==> word_vec@[j] != *target,
{
    let mut i: usize = start;
    while i < word_vec.len()
        invariant
            start <= i,
            forall|j: int| start <= j < i ==> word_vec@[j] != *target,
        decreases word_vec.len() - i,
    {
        if word_vec[i] == *target {
            return Some(i);
        }
        i += 1;
    }
    None
}

/// Overwrite the character at position `pos` (counted in characters) with
/// `target`; a position past the end leaves the string as it was.
pub fn replace_char(s: &mut String, target: &char, pos: usize)
    ensures
        pos < old(s)@.len() ==> final(s)@ == old(s)@.update(pos as int, *target),
        pos >= old(s)@.len() ==> final(s)@ == old(s)@,
{
    let n = s.as_str().unicode_len();
    if pos < n {
        let mut out = String::new();
        let mut i: usize = 0;
        while i < n
            invariant
                i <= n,
                pos < n,
                n == s@.len(),
                s@ == old(s)@,
                out@.len() == i,
                forall|j: int|
                    0 <= j < i ==> out@[j] == (if j == pos {
                        *target
                    } else {
                        s@[j]
                    }),
            decreases n - i,
        {
            if i == pos {
                out.push(*target);
            } else {
                let c = s.as_str().get_char(i);
                out.push(c);
            }
            i += 1;
        }
        *s = out;
        proof {
            assert(s@ =~= old(s)@.update(pos as int, *target));
        }
    }
}

} // verus!
