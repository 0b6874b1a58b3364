//! Left-to-right search for a delimiter in text.
//!
//! Text and delimiter are sequences of characters. A scan walks the text from left to
//! right: where the delimiter stands at the scan position, that is an occurrence and the
//! scan resumes right behind it, so occurrences never overlap; elsewhere the scan moves on
//! by one character. An empty delimiter occurs nowhere.

use vstd::prelude::*;

verus! {

/// `delim` stands in `text` at position `at`. An empty delimiter stands nowhere.
pub open spec fn occurs_at(text: Seq<char>, delim: Seq<char>, at: int) -> bool {
    &&& delim.len() > 0
    &&& 0 <= at
    &&& at + delim.len() <= text.len()
    &&& text.subrange(at, at + delim.len()) =~= delim
}

/// Number of occurrences that a scan of `text` finds from position `from` on.
pub open spec fn occurrences_from(text: Seq<char>, delim: Seq<char>, from: int) -> nat
    decreases text.len() - from,
{
    if delim.len() == 0 || from < 0 || from + delim.len() > text.len() {
        0
    } else if occurs_at(text, delim, from) {
        1 + occurrences_from(text, delim, from + delim.len())
    } else {
        occurrences_from(text, delim, from + 1)
    }
}

/// End of the last occurrence that a scan of `text` finds from position `from` on, and
/// `last` where it finds none.
pub open spec fn last_end_from(text: Seq<char>, delim: Seq<char>, from: int, last: int) -> int
    decreases text.len() - from,
{
    if delim.len() == 0 || from < 0 || from + delim.len() > text.len() {
        last
    } else if occurs_at(text, delim, from) {
        last_end_from(text, delim, from + delim.len(), from + delim.len())
    } else {
        last_end_from(text, delim, from + 1, last)
    }
}

/// Position at which a scan of `text` that starts at `from` comes to rest: the first one
/// it reaches from which the delimiter no longer fits into the text.
pub open spec fn resume_from(text: Seq<char>, delim: Seq<char>, from: int) -> int
    decreases text.len() - from,
{
    if delim.len() == 0 || from < 0 || from + delim.len() > text.len() {
        from
    } else if occurs_at(text, delim, from) {
        resume_from(text, delim, from + delim.len())
    } else {
        resume_from(text, delim, from + 1)
    }
}

/// Number of non-overlapping occurrences of `delim` in `text`, found from left to right.
pub open spec fn occurrences(text: Seq<char>, delim: Seq<char>) -> nat {
    occurrences_from(text, delim, 0)
}

/// End of the last of those occurrences, 0 if there is none.
pub open spec fn last_end(text: Seq<char>, delim: Seq<char>) -> int {
    last_end_from(text, delim, 0, 0)
}

/// The last occurrence ends exactly where `text` ends.
pub open spec fn ends_on_delimiter(text: Seq<char>, delim: Seq<char>) -> bool {
    occurrences(text, delim) > 0 && last_end(text, delim) == text.len()
}

/// Number of trailing characters worth keeping: an occurrence that is not complete yet
/// has at most this many characters in the text already.
pub open spec fn carry_limit(delim: Seq<char>) -> nat {
    if delim.len() == 0 {
        0
    } else {
        (delim.len() - 1) as nat
    }
}

/// The carry suffix of `text`: what remains behind the last occurrence, cut down to its
/// last `carry_limit(delim)` characters.
pub open spec fn carry(text: Seq<char>, delim: Seq<char>) -> Seq<char> {
    let rest = text.skip(last_end(text, delim));
    if rest.len() > carry_limit(delim) {
        rest.skip(rest.len() - carry_limit(delim))
    } else {
        rest
    }
}

/// What a scan of a whole text finds.
pub struct Found {
    /// Number of occurrences.
    pub count: usize,
    /// End of the last occurrence, 0 if there is none.
    pub last_end: usize,
}

/// Tells whether `delim` stands in `text` at position `at`.
pub fn occurs_here(text: &[char], delim: &[char], at: usize) -> (yes: bool)
    ensures
        yes == occurs_at(text@, delim@, at as int),
{
    if delim.len() == 0 || delim.len() > text.len() || at > text.len() - delim.len() {
        return false;
    }
    let mut k: usize = 0;
    while k < delim.len()
        invariant
            k <= delim.len(),
            at + delim.len() <= text.len(),
            forall|j: int| 0 <= j < k ==> text@[at + j] == delim@[j],
        decreases delim.len() - k,
    {
        if text[at + k] != delim[k] {
            return false;
        }
        k += 1;
    }
    true
}

/// Scans `text` from left to right for non-overlapping occurrences of `delim`.
pub fn scan(text: &[char], delim: &[char]) -> (found: Found)
    ensures
        found.count == occurrences(text@, delim@),
        found.last_end == last_end(text@, delim@),
{
    let mut count: usize = 0;
    let mut end: usize = 0;
    let mut pos: usize = 0;
    if delim.len() == 0 {
        return Found { count, last_end: end };
    }
    while delim.len() <= text.len() - pos
        invariant
            delim.len() > 0,
            count <= pos <= text.len(),
            end <= pos,
            occurrences(text@, delim@) == count + occurrences_from(text@, delim@, pos as int),
            last_end(text@, delim@) == last_end_from(text@, delim@, pos as int, end as int),
        decreases text.len() - pos,
    {
        if occurs_here(text, delim, pos) {
            count += 1;
            pos += delim.len();
            end = pos;
        } else {
            pos += 1;
        }
    }
    Found { count, last_end: end }
}

/// Where the results of a scan lie: at most one occurrence per position passed, the last
/// end inside the text, the resting position within a delimiter's length of the end.
pub proof fn lemma_scan_bounds(text: Seq<char>, delim: Seq<char>, from: int, last: int)
    requires
        0 <= last <= from <= text.len(),
    ensures
        occurrences_from(text, delim, from) <= text.len() - from,
        last <= last_end_from(text, delim, from, last) <= text.len(),
        occurrences_from(text, delim, from) == 0 ==> last_end_from(text, delim, from, last) == last,
        occurrences_from(text, delim, from) > 0 ==> from + delim.len() <= last_end_from(
            text,
            delim,
            from,
            last,
        ),
        from <= resume_from(text, delim, from) <= text.len(),
        last_end_from(text, delim, from, last) <= resume_from(text, delim, from),
        delim.len() > 0 ==> resume_from(text, delim, from) + delim.len() > text.len(),
    decreases text.len() - from,
{
    if delim.len() == 0 || from + delim.len() > text.len() {
    } else if occurs_at(text, delim, from) {
        lemma_scan_bounds(text, delim, from + delim.len(), from + delim.len());
    } else {
        lemma_scan_bounds(text, delim, from + 1, last);
    }
}

/// A scan that finds nothing leaves `last` as it is.
pub proof fn lemma_scan_zero(text: Seq<char>, delim: Seq<char>, from: int, last: int)
    requires
        occurrences_from(text, delim, from) == 0,
    ensures
        last_end_from(text, delim, from, last) == last,
    decreases text.len() - from,
{
    if delim.len() == 0 || from < 0 || from + delim.len() > text.len() {
    } else if occurs_at(text, delim, from) {
    } else {
        lemma_scan_zero(text, delim, from + 1, last);
    }
}

/// The end of the last occurrence does not depend on `last` once an occurrence is found.
pub proof fn lemma_last_end_found(text: Seq<char>, delim: Seq<char>, from: int, a: int, b: int)
    requires
        occurrences_from(text, delim, from) > 0,
    ensures
        last_end_from(text, delim, from, a) == last_end_from(text, delim, from, b),
    decreases text.len() - from,
{
    if delim.len() == 0 || from < 0 || from + delim.len() > text.len() {
    } else if occurs_at(text, delim, from) {
    } else {
        lemma_last_end_found(text, delim, from + 1, a, b);
    }
}

/// A scan of `text + more` first does what the scan of `text` does, and then goes on from
/// where that one comes to rest.
pub proof fn lemma_scan_extend(
    text: Seq<char>,
    more: Seq<char>,
    delim: Seq<char>,
    from: int,
    last: int,
)
    requires
        0 <= from,
    ensures
        occurrences_from(text + more, delim, from) == occurrences_from(text, delim, from)
            + occurrences_from(text + more, delim, resume_from(text, delim, from)),
        last_end_from(text + more, delim, from, last) == last_end_from(
            text + more,
            delim,
            resume_from(text, delim, from),
            last_end_from(text, delim, from, last),
        ),
        resume_from(text + more, delim, from) == resume_from(
            text + more,
            delim,
            resume_from(text, delim, from),
        ),
    decreases text.len() - from,
{
    let whole = text + more;
    if delim.len() == 0 || from + delim.len() > text.len() {
    } else {
        if occurs_at(text, delim, from) {
            lemma_scan_extend(text, more, delim, from + delim.len(), from + delim.len());
        } else {
            lemma_scan_extend(text, more, delim, from + 1, last);
        }
    }
}

/// A scan of what follows position `start` is the scan of the whole text from `start` on,
/// with every position moved by `start`.
pub proof fn lemma_scan_shift(text: Seq<char>, delim: Seq<char>, start: int, from: int, last: int)
    requires
        0 <= start <= text.len(),
        0 <= from,
    ensures
        occurrences_from(text.skip(start), delim, from) == occurrences_from(
            text,
            delim,
            start + from,
        ),
        last_end_from(text.skip(start), delim, from, last) + start == last_end_from(
            text,
            delim,
            start + from,
            last + start,
        ),
        resume_from(text.skip(start), delim, from) + start == resume_from(
            text,
            delim,
            start + from,
        ),
    decreases text.len() - start - from,
{
    let tail = text.skip(start);
    if delim.len() == 0 || from + delim.len() > tail.len() {
    } else {
        if occurs_at(tail, delim, from) {
            lemma_scan_shift(text, delim, start, from + delim.len(), from + delim.len());
        } else {
            lemma_scan_shift(text, delim, start, from + 1, last);
        }
    }
}

/// Where a scan comes to rest, in closed form: behind the last occurrence, or where the
/// last `carry_limit(delim)` characters begin, whichever is further right.
pub proof fn lemma_resume_closed_form(text: Seq<char>, delim: Seq<char>, from: int, last: int)
    requires
        delim.len() > 0,
        0 <= last <= from <= text.len(),
        from == last || from + delim.len() <= text.len() + 1,
    ensures
        resume_from(text, delim, from) == if last_end_from(text, delim, from, last) + carry_limit(
            delim,
        ) >= text.len() {
            last_end_from(text, delim, from, last)
        } else {
            text.len() - carry_limit(delim)
        },
    decreases text.len() - from,
{
    if from + delim.len() > text.len() {
    } else if occurs_at(text, delim, from) {
        lemma_resume_closed_form(text, delim, from + delim.len(), from + delim.len());
    } else {
        lemma_resume_closed_form(text, delim, from + 1, last);
    }
}

/// The carry suffix is the text from the resting position of the scan on.
pub proof fn lemma_carry_is_unscanned(text: Seq<char>, delim: Seq<char>)
    requires
        delim.len() > 0,
    ensures
        carry(text, delim) =~= text.skip(resume_from(text, delim, 0)),
        carry(text, delim).len() == text.len() - resume_from(text, delim, 0),
        carry(text, delim).len() <= carry_limit(delim),
{
    lemma_scan_bounds(text, delim, 0, 0);
    lemma_resume_closed_form(text, delim, 0, 0);
}

/// One step of a scan in pieces. Let `window` be the carry suffix of `text` followed by
/// `more`. Then the scan of `text + more` finds the occurrences of `text` and those of
/// `window`, its last occurrence is the last one of `window` if there is one, and its
/// carry suffix is that of `window`.
pub proof fn lemma_scan_window(text: Seq<char>, more: Seq<char>, delim: Seq<char>)
    ensures
        occurrences(text + more, delim) == occurrences(text, delim) + occurrences(
            carry(text, delim) + more,
            delim,
        ),
        last_end(text + more, delim) == if occurrences(carry(text, delim) + more, delim) > 0 {
            text.len() - carry(text, delim).len() + last_end(carry(text, delim) + more, delim)
        } else {
            last_end(text, delim)
        },
        carry(text + more, delim) =~= carry(carry(text, delim) + more, delim),
{
    let whole = text + more;
    let window = carry(text, delim) + more;
    if delim.len() > 0 {
        let start = resume_from(text, delim, 0);
        lemma_scan_bounds(text, delim, 0, 0);
        lemma_carry_is_unscanned(text, delim);
        assert(window =~= whole.skip(start));
        lemma_scan_extend(text, more, delim, 0, 0);
        lemma_scan_shift(whole, delim, start, 0, 0);
        lemma_scan_shift(whole, delim, start, 0, last_end(text, delim) - start);
        lemma_scan_bounds(window, delim, 0, 0);
        if occurrences(window, delim) > 0 {
            lemma_last_end_found(window, delim, 0, 0, last_end(text, delim) - start);
        } else {
            lemma_scan_zero(window, delim, 0, last_end(text, delim) - start);
        }
        lemma_carry_is_unscanned(whole, delim);
        lemma_carry_is_unscanned(window, delim);
    }
}

/// More text never takes an occurrence away: the running count does not go down.
pub proof fn law_occurrences_grow(text: Seq<char>, more: Seq<char>, delim: Seq<char>)
    ensures
        occurrences(text, delim) <= occurrences(text + more, delim),
{
    lemma_scan_window(text, more, delim);
}

/// Where the delimiter stands nowhere in the text, a scan finds nothing.
pub proof fn lemma_no_occurrence(text: Seq<char>, delim: Seq<char>, from: int)
    requires
        forall|at: int| !occurs_at(text, delim, at),
    ensures
        occurrences_from(text, delim, from) == 0,
    decreases text.len() - from,
{
    if delim.len() == 0 || from < 0 || from + delim.len() > text.len() {
    } else {
        lemma_no_occurrence(text, delim, from + 1);
    }
}

/// A scan that starts at or before a place where the delimiter stands finds something.
pub proof fn lemma_occurrence_found(text: Seq<char>, delim: Seq<char>, from: int, at: int)
    requires
        0 <= from <= at,
        occurs_at(text, delim, at),
    ensures
        occurrences_from(text, delim, from) > 0,
    decreases at - from,
{
    if !occurs_at(text, delim, from) {
        lemma_occurrence_found(text, delim, from + 1, at);
    }
}

/// A scan finds the delimiter exactly where the delimiter stands somewhere in the text.
pub proof fn law_found_where_it_stands(text: Seq<char>, delim: Seq<char>)
    ensures
        occurrences(text, delim) > 0 <==> exists|at: int| occurs_at(text, delim, at),
{
    if exists|at: int| occurs_at(text, delim, at) {
        let at = choose|at: int| occurs_at(text, delim, at);
        lemma_occurrence_found(text, delim, 0, at);
    } else {
        lemma_no_occurrence(text, delim, 0);
    }
}

/// The last occurrence that a scan finds is a place where the delimiter stands.
pub proof fn lemma_last_end_is_an_occurrence(
    text: Seq<char>,
    delim: Seq<char>,
    from: int,
    last: int,
)
    requires
        occurrences_from(text, delim, from) > 0,
    ensures
        occurs_at(text, delim, last_end_from(text, delim, from, last) - delim.len()),
    decreases text.len() - from,
{
    if occurs_at(text, delim, from) {
        if occurrences_from(text, delim, from + delim.len()) > 0 {
            lemma_last_end_is_an_occurrence(text, delim, from + delim.len(), from + delim.len());
        } else {
            lemma_scan_zero(text, delim, from + delim.len(), from + delim.len());
        }
    } else {
        lemma_last_end_is_an_occurrence(text, delim, from + 1, last);
    }
}

/// A text that ends on a delimiter has the delimiter as its last characters.
pub proof fn law_ends_with_delimiter(text: Seq<char>, delim: Seq<char>)
    requires
        ends_on_delimiter(text, delim),
    ensures
        delim.len() <= text.len(),
        text.skip(text.len() - delim.len()) == delim,
{
    lemma_last_end_is_an_occurrence(text, delim, 0, 0);
}

/// A delimiter of one character stands wherever that character stands.
pub proof fn lemma_one_char_occurs(text: Seq<char>, c: char, at: int)
    requires
        0 <= at < text.len(),
    ensures
        occurs_at(text, seq![c], at) <==> text[at] == c,
{
    assert(text.subrange(at, at + 1)[0] == text[at]);
}

/// With a delimiter of one character the first character is an occurrence or not, and
/// the scan goes on behind it as a scan of the rest.
pub proof fn lemma_one_char_step(text: Seq<char>, c: char)
    requires
        text.len() > 0,
    ensures
        occurrences(text, seq![c]) == occurrences(text.drop_first(), seq![c]) + if text[0] == c {
            1nat
        } else {
            0nat
        },
{
    lemma_one_char_occurs(text, c, 0);
    lemma_scan_shift(text, seq![c], 1, 0, 0);
}

/// With a delimiter of one character, a scan that has the last character still before
/// it finds an occurrence where that character is the delimiter.
proof fn lemma_one_char_found(text: Seq<char>, c: char, from: int)
    requires
        0 <= from < text.len(),
        text.last() == c,
    ensures
        occurrences_from(text, seq![c], from) > 0,
    decreases text.len() - from,
{
    lemma_one_char_occurs(text, c, from);
    if text[from] != c {
        lemma_one_char_found(text, c, from + 1);
    }
}

/// With a delimiter of one character, the end of the last occurrence from `from` on is
/// the end of the text exactly where the text ends in that character.
proof fn lemma_one_char_last_end(text: Seq<char>, c: char, from: int, last: int)
    requires
        0 <= last <= from <= text.len(),
    ensures
        last_end_from(text, seq![c], from, last) == text.len() <==> (from < text.len()
            && text.last() == c) || (from == text.len() && last == text.len()),
    decreases text.len() - from,
{
    if from < text.len() {
        lemma_one_char_occurs(text, c, from);
        if text[from] == c {
            lemma_one_char_last_end(text, c, from + 1, from + 1);
        } else {
            lemma_one_char_last_end(text, c, from + 1, last);
        }
    }
}

/// With a delimiter of one character, a text ends on the delimiter exactly where its last
/// character is that character.
pub proof fn lemma_one_char_ends(text: Seq<char>, c: char)
    ensures
        ends_on_delimiter(text, seq![c]) <==> text.len() > 0 && text.last() == c,
{
    lemma_one_char_last_end(text, c, 0, 0);
    lemma_scan_bounds(text, seq![c], 0, 0);
    if text.len() > 0 && text.last() == c {
        lemma_one_char_found(text, c, 0);
    }
}

/// A delimiter that holds `first` at its start, and at every later place the character
/// before, holds `first` everywhere.
proof fn lemma_all_first(delim: Seq<char>, first: char, k: int)
    requires
        0 <= k < delim.len(),
        delim[0] == first,
        forall|j: int| 1 <= j < delim.len() ==> #[trigger] delim[j] == delim[j - 1],
    ensures
        delim[k] == first,
    decreases k,
{
    if k > 0 {
        lemma_all_first(delim, first, k - 1);
    }
}

/// A delimiter that does not consist of `first` alone does not stand at the start of
/// `first` followed by the delimiter.
proof fn lemma_not_at_start(first: char, delim: Seq<char>, tail: Seq<char>)
    requires
        exists|i: int| 0 <= i < delim.len() && delim[i] != first,
    ensures
        !occurs_at(seq![first] + delim + tail, delim, 0),
{
    let text = seq![first] + delim + tail;
    if occurs_at(text, delim, 0) {
        let i = choose|i: int| 0 <= i < delim.len() && delim[i] != first;
        assert(forall|j: int| 1 <= j < delim.len() ==> #[trigger] delim[j] == delim[j - 1]);
        lemma_all_first(delim, first, i);
    }
}

/// One character and then the delimiter: the delimiter is found once, at the end. This
/// holds of every delimiter but those that consist of that character alone.
pub proof fn lemma_delimiter_at_end(first: char, delim: Seq<char>)
    requires
        exists|i: int| 0 <= i < delim.len() && delim[i] != first,
    ensures
        occurrences(seq![first] + delim, delim) == 1,
        ends_on_delimiter(seq![first] + delim, delim),
{
    let text = seq![first] + delim;
    let len = delim.len() as int;
    lemma_not_at_start(first, delim, Seq::<char>::empty());
    assert(occurrences_from(text, delim, 1 + len) == 0);
    assert(occurrences_from(text, delim, 1) == 1);
    assert(last_end_from(text, delim, 1 + len, 1 + len) == 1 + len);
    assert(last_end_from(text, delim, 1, 0) == 1 + len);
}

/// One character, the delimiter, and another character: either the delimiter is found
/// once and text follows it, or it is found twice and the text ends on it. This holds of
/// every delimiter that is not empty and is not the first character alone.
pub proof fn lemma_delimiter_inside(first: char, delim: Seq<char>, second: char)
    requires
        first != second,
        delim.len() > 0,
        delim != seq![first],
    ensures
        ends_on_delimiter(seq![first] + delim + seq![second], delim) ==> occurrences(
            seq![first] + delim + seq![second],
            delim,
        ) == 2,
        !ends_on_delimiter(seq![first] + delim + seq![second], delim) ==> occurrences(
            seq![first] + delim + seq![second],
            delim,
        ) == 1,
{
    let text = seq![first] + delim + seq![second];
    let len = delim.len() as int;
    if exists|i: int| 0 <= i < delim.len() && delim[i] != first {
        lemma_not_at_start(first, delim, seq![second]);
        if len == 1 && delim[0] == second {
            assert(occurrences_from(text, delim, 3) == 0);
            assert(occurrences_from(text, delim, 2) == 1);
            assert(last_end_from(text, delim, 3, 3) == 3);
            assert(last_end_from(text, delim, 2, 2) == 3);
            assert(last_end_from(text, delim, 1, 0) == 3);
        } else {
            if len == 1 {
                assert(occurrences_from(text, delim, 3) == 0);
                assert(last_end_from(text, delim, 3, 2) == 2);
            }
            assert(occurrences_from(text, delim, 1 + len) == 0);
            assert(occurrences_from(text, delim, 1) == 1);
            assert(last_end_from(text, delim, 1 + len, 1 + len) == 1 + len);
            assert(last_end_from(text, delim, 1, 0) == 1 + len);
        }
    } else {
        assert(len >= 2) by {
            if len == 1 {
                assert(delim =~= seq![first]);
            }
        }
        assert(text.subrange(0, len) =~= delim);
        if len == 2 {
            assert(text.subrange(2, 4)[1] == second);
            assert(last_end_from(text, delim, 3, 2) == 2);
        }
        assert(last_end_from(text, delim, len, len) == len);
    }
}

} // verus!
