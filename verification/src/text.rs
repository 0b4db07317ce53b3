//! Splitting text on a separator, as `str::split` does, and building strings.

use vstd::prelude::*;
use vstd::slice::{slice_subrange, slice_to_vec};
use vstd::utf8::{decode_utf8, valid_utf8};

verus! {

/// `sep` occurs in `s` starting at position `i`.
pub open spec fn occurs_at(s: Seq<char>, sep: Seq<char>, i: int) -> bool {
    0 <= i && i + sep.len() <= s.len() && s.subrange(i, i + sep.len()) == sep
}

/// The position of the leftmost occurrence of `sep` in `s`.
pub open spec fn first_match(s: Seq<char>, sep: Seq<char>) -> Option<int>
    decreases s.len(),
{
    if sep.len() == 0 || s.len() < sep.len() {
        None
    } else if s.subrange(0, sep.len() as int) == sep {
        Some(0)
    } else {
        match first_match(s.drop_first(), sep) {
            Some(k) => Some(k + 1),
            None => None,
        }
    }
}

/// The pieces of `s` between the leftmost non-overlapping occurrences of a
/// non-empty `sep`, as `str::split` yields them: `n` occurrences give `n + 1` pieces.
pub open spec fn split(s: Seq<char>, sep: Seq<char>) -> Seq<Seq<char>>
    decreases s.len(),
{
    if sep.len() == 0 {
        seq![s]
    } else {
        match first_match(s, sep) {
            None => seq![s],
            Some(k) => {
                if 0 <= k && k + sep.len() <= s.len() {
                    seq![s.subrange(0, k)] + split(s.subrange(k + sep.len(), s.len() as int), sep)
                } else {
                    seq![s]
                }
            },
        }
    }
}

/// `first_match` finds the leftmost occurrence, and only when there is one.
pub proof fn lemma_first_match(s: Seq<char>, sep: Seq<char>)
    requires
        sep.len() > 0,
    ensures
        match first_match(s, sep) {
            Some(k) => occurs_at(s, sep, k) && forall|j: int| 0 <= j < k ==> !occurs_at(s, sep, j),
            None => forall|j: int| !occurs_at(s, sep, j),
        },
    decreases s.len(),
{
    if sep.len() == 0 || s.len() < sep.len() {
    } else if s.subrange(0, sep.len() as int) == sep {
    } else {
        let t = s.drop_first();
        lemma_first_match(t, sep);
        assert(t =~= s.subrange(1, s.len() as int));
        assert forall|j: int| 0 <= j && j + sep.len() <= t.len() implies
            #[trigger] t.subrange(j, j + sep.len()) == s.subrange(j + 1, j + 1 + sep.len()) by {
            assert(t.subrange(j, j + sep.len()) =~= s.subrange(j + 1, j + 1 + sep.len()));
        }
        assert(!occurs_at(s, sep, 0));
        match first_match(t, sep) {
            Some(k) => {
                assert(occurs_at(s, sep, k + 1));
                assert forall|j: int| 0 <= j < k + 1 implies !occurs_at(s, sep, j) by {
                    if j > 0 {
                        assert(!occurs_at(t, sep, j - 1));
                    }
                }
            },
            None => {
                assert forall|j: int| !occurs_at(s, sep, j) by {
                    if j > 0 {
                        assert(!occurs_at(t, sep, j - 1));
                    }
                }
            },
        }
    }
}

/// The leftmost occurrence is determined by where `sep` occurs.
pub proof fn lemma_first_match_is(s: Seq<char>, sep: Seq<char>, k: int)
    requires
        sep.len() > 0,
        occurs_at(s, sep, k),
        forall|j: int| 0 <= j < k ==> !occurs_at(s, sep, j),
    ensures
        first_match(s, sep) == Some(k),
{
    lemma_first_match(s, sep);
}

/// Occurrences in a suffix are occurrences in the whole, shifted.
proof fn lemma_occurs_in_suffix(s: Seq<char>, sep: Seq<char>, start: int, j: int)
    requires
        0 <= start <= s.len(),
    ensures
        occurs_at(s.subrange(start, s.len() as int), sep, j) <==> (j >= 0 && occurs_at(s, sep, start + j)),
{
    let t = s.subrange(start, s.len() as int);
    if 0 <= j && j + sep.len() <= t.len() {
        assert(t.subrange(j, j + sep.len()) =~= s.subrange(start + j, start + j + sep.len()));
    }
}

/// Whether `sep` occurs in `s` at position `i`.
fn matches_at(s: &[char], sep: &[char], i: usize) -> (r: bool)
    requires
        i <= s@.len(),
    ensures
        r == occurs_at(s@, sep@, i as int),
{
    if sep.len() > s.len() - i {
        return false;
    }
    let mut k: usize = 0;
    while k < sep.len()
        invariant
            i + sep@.len() <= s@.len(),
            s@.len() == s.len(),
            sep@.len() == sep.len(),
            k <= sep@.len(),
            forall|m: int| 0 <= m < k ==> s@[i + m] == sep@[m],
        decreases sep@.len() - k,
    {
        if s[i + k] != sep[k] {
            assert(s@.subrange(i as int, i + sep@.len())[k as int] != sep@[k as int]);
            return false;
        }
        k = k + 1;
    }
    assert(s@.subrange(i as int, i + sep@.len()) =~= sep@);
    true
}

/// Splits `s` on every leftmost non-overlapping occurrence of `sep`.
pub fn split_chars(s: &[char], sep: &[char]) -> (pieces: Vec<Vec<char>>)
    requires
        sep@.len() > 0,
    ensures
        pieces.deep_view() == split(s@, sep@),
{
    let mut pieces: Vec<Vec<char>> = Vec::new();
    let mut start: usize = 0;
    let mut i: usize = 0;
    proof {
        assert(pieces.deep_view() =~= Seq::<Seq<char>>::empty());
        assert(s@.subrange(0, s@.len() as int) =~= s@);
        assert(Seq::<Seq<char>>::empty() + split(s@, sep@) =~= split(s@, sep@));
    }
    while i < s.len()
        invariant
            sep@.len() > 0,
            start <= i <= s@.len(),
            pieces.deep_view() + split(s@.subrange(start as int, s@.len() as int), sep@)
                == split(s@, sep@),
            forall|j: int| start <= j < i ==> !occurs_at(s@, sep@, j),
        decreases s@.len() - i, s@.len() - start,
    {
        if matches_at(s, sep, i) {
            let ghost rest = s@.subrange(start as int, s@.len() as int);
            proof {
                assert forall|j: int| 0 <= j < i - start implies !occurs_at(rest, sep@, j) by {
                    lemma_occurs_in_suffix(s@, sep@, start as int, j);
                }
                lemma_occurs_in_suffix(s@, sep@, start as int, i - start);
                lemma_first_match_is(rest, sep@, i - start);
                assert(rest.subrange(0, i - start) =~= s@.subrange(start as int, i as int));
                assert(rest.subrange(i - start + sep@.len(), rest.len() as int)
                    =~= s@.subrange(i + sep@.len(), s@.len() as int));
            }
            let piece = slice_to_vec(slice_subrange(s, start, i));
            let ghost before = pieces.deep_view();
            pieces.push(piece);
            proof {
                assert(piece.deep_view() =~= piece@);
                assert(pieces.deep_view() =~= before.push(piece@));
                assert(split(rest, sep@) == seq![s@.subrange(start as int, i as int)]
                    + split(s@.subrange(i + sep@.len(), s@.len() as int), sep@));
                assert(pieces.deep_view() + split(s@.subrange(i + sep@.len(), s@.len() as int), sep@)
                    =~= before + split(rest, sep@));
            }
            start = i + sep.len();
            i = start;
        } else {
            i = i + 1;
        }
    }
    let ghost rest = s@.subrange(start as int, s@.len() as int);
    proof {
        assert forall|j: int| !occurs_at(rest, sep@, j) by {
            lemma_occurs_in_suffix(s@, sep@, start as int, j);
        }
        lemma_first_match(rest, sep@);
    }
    let piece = slice_to_vec(slice_subrange(s, start, s.len()));
    let ghost before = pieces.deep_view();
    pieces.push(piece);
    proof {
        assert(piece@ =~= rest);
        assert(piece.deep_view() =~= piece@);
        assert(pieces.deep_view() =~= before.push(rest));
        assert(before + seq![rest] =~= before.push(rest));
    }
    pieces
}

} // verus!

verus! {

/// The characters of `s`, in order.
pub fn chars_of(s: &str) -> (v: Vec<char>)
    ensures
        v@ == s@,
{
    broadcast use vstd::string::group_string_axioms;
    let mut v: Vec<char> = Vec::new();
    for c in it: s.chars()
        invariant
            v@ == it.seq().take(it.index() as int),
    {
        v.push(c);
    }
    v
}

} // verus!

verus! {

/// `String::push`: appends the character to the end of the string.
#[verifier::external_body]
pub(crate) fn push_char(s: &mut String, c: char)
    ensures
        final(s)@ == old(s)@.push(c),
{
    s.push(c);
}

/// The string made of the given characters.
pub fn string_of(chars: &[char]) -> (s: String)
    ensures
        s@ == chars@,
{
    let mut s = String::new();
    let mut i: usize = 0;
    while i < chars.len()
        invariant
            i <= chars@.len(),
            s@ == chars@.subrange(0, i as int),
        decreases chars@.len() - i,
    {
        push_char(&mut s, chars[i]);
        i = i + 1;
        assert(s@ =~= chars@.subrange(0, i as int));
    }
    assert(chars@.subrange(0, chars@.len() as int) =~= chars@);
    s
}

} // verus!

verus! {

/// What `String::from_utf8_lossy` makes of a byte sequence: its UTF-8 text,
/// with each invalid sequence replaced by U+FFFD.
pub uninterp spec fn utf8_lossy(b: Seq<u8>) -> Seq<char>;

/// `String::from_utf8_lossy`, owned: the text of the bytes, invalid sequences
/// replaced; on valid UTF-8 it is exactly the text the bytes encode.
#[verifier::external_body]
fn lossy_text(b: &[u8]) -> (s: String)
    ensures
        s@ == utf8_lossy(b@),
        valid_utf8(b@) ==> s@ == decode_utf8(b@),
{
    String::from_utf8_lossy(b).into_owned()
}

/// The text of a command's output or of a file name sent by the server, read
/// as UTF-8 with invalid sequences replaced.
pub fn output_text(b: &[u8]) -> (s: String)
    ensures
        s@ == utf8_lossy(b@),
        valid_utf8(b@) ==> s@ == decode_utf8(b@),
{
    lossy_text(b)
}

/// The text of a channel's data, when it is valid UTF-8.
pub fn channel_text(data: &[u8]) -> (r: Option<String>)
    ensures
        r is Some <==> valid_utf8(data@),
        r matches Some(s) ==> s@ == decode_utf8(data@),
{
    match crate::utils::utf8_text(data) {
        Some(s) => Some(s.to_owned()),
        None => None,
    }
}

/// Whether `pat` occurs anywhere in `s`.
pub fn contains_chars(s: &[char], pat: &[char]) -> (r: bool)
    ensures
        r <==> exists|i: int| occurs_at(s@, pat@, i),
{
    let mut i: usize = 0;
    while i < s.len()
        invariant
            i <= s@.len(),
            forall|j: int| 0 <= j < i ==> !occurs_at(s@, pat@, j),
        decreases s@.len() - i,
    {
        if matches_at(s, pat, i) {
            return true;
        }
        i = i + 1;
    }
    if matches_at(s, pat, s.len()) {
        return true;
    }
    false
}

} // verus!

verus! {

/// The pieces joined back together with the separator between them.
pub open spec fn join(pieces: Seq<Seq<char>>, sep: Seq<char>) -> Seq<char>
    decreases pieces.len(),
{
    if pieces.len() == 0 {
        seq![]
    } else if pieces.len() == 1 {
        pieces[0]
    } else {
        pieces[0] + sep + join(pieces.drop_first(), sep)
    }
}

/// Splitting loses nothing: joining the pieces with the separator gives the text back,
/// and there is always at least one piece.
pub proof fn law_split_join(s: Seq<char>, sep: Seq<char>)
    requires
        sep.len() > 0,
    ensures
        split(s, sep).len() >= 1,
        join(split(s, sep), sep) == s,
    decreases s.len(),
{
    lemma_first_match(s, sep);
    match first_match(s, sep) {
        None => {},
        Some(k) => {
            let rest = s.subrange(k + sep.len(), s.len() as int);
            law_split_join(rest, sep);
            let p = split(s, sep);
            assert(p == seq![s.subrange(0, k)] + split(rest, sep));
            assert(p.drop_first() =~= split(rest, sep));
            assert(s =~= s.subrange(0, k) + sep + rest);
        },
    }
}

} // verus!

verus! {

/// No piece of a split holds the separator.
pub proof fn law_split_pieces_lack_separator(s: Seq<char>, sep: Seq<char>)
    requires
        sep.len() > 0,
    ensures
        forall|i: int, j: int|
            0 <= i < split(s, sep).len() ==> !#[trigger] occurs_at(split(s, sep)[i], sep, j),
    decreases s.len(),
{
    lemma_first_match(s, sep);
    match first_match(s, sep) {
        None => {
            assert(split(s, sep) == seq![s]);
        },
        Some(k) => {
            let rest = s.subrange(k + sep.len(), s.len() as int);
            law_split_pieces_lack_separator(rest, sep);
            let p = split(s, sep);
            assert(p == seq![s.subrange(0, k)] + split(rest, sep));
            assert forall|i: int, j: int| 0 <= i < p.len() implies !#[trigger] occurs_at(p[i], sep, j) by {
                if i == 0 {
                    let head = s.subrange(0, k);
                    if occurs_at(head, sep, j) {
                        assert(head.subrange(j, j + sep.len()) =~= s.subrange(j, j + sep.len()));
                        assert(occurs_at(s, sep, j));
                    }
                } else {
                    assert(p[i] == split(rest, sep)[i - 1]);
                }
            }
        },
    }
}

} // verus!
