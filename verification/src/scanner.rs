//! Scanning text that arrives in pieces.
//!
//! The scanner never holds the whole text. Between two pieces it keeps the carry suffix:
//! the few characters at the end of what it has scanned that may be the beginning of an
//! occurrence the next piece completes. Scanning the carry suffix followed by the next
//! piece finds exactly the occurrences that a scan of the whole text would find next.

use crate::scan::{
    carry, carry_limit, ends_on_delimiter, lemma_scan_bounds, lemma_scan_window, occurrences,
    scan,
};
use crate::terminal::{fit, running_segment_count, segment_total};
use vstd::arithmetic::overflow::CheckedUsize;
use vstd::prelude::*;

verus! {

/// Appends the characters of `text` to `window`.
pub fn append_chars(window: &mut Vec<char>, text: &str)
    ensures
        final(window)@ == old(window)@ + text@,
{
    for c in it: text.chars()
        invariant
            it.seq() == text@,
            window@ == old(window)@ + it.seq().take(it.index() as int),
    {
        window.push(c);
    }
}

/// Counts the occurrences of a delimiter in text that is pushed piece by piece.
pub struct DelimiterScanner {
    delimiter: Vec<char>,
    carry: Vec<char>,
    found: CheckedUsize,
    ended_on_delimiter: bool,
    text: Ghost<Seq<char>>,
}

impl DelimiterScanner {
    /// The delimiter that is searched for.
    pub closed spec fn delimiter(&self) -> Seq<char> {
        self.delimiter@
    }

    /// The text pushed so far, all pieces in order.
    pub closed spec fn text(&self) -> Seq<char> {
        self.text@
    }

    /// The characters kept for the next piece.
    pub closed spec fn carried(&self) -> Seq<char> {
        self.carry@
    }

    /// The running count and the end flag are those of the text pushed so far, and the
    /// characters kept are its carry suffix.
    pub closed spec fn wf(&self) -> bool {
        &&& self.found@ == occurrences(self.text@, self.delimiter@)
        &&& self.ended_on_delimiter == ends_on_delimiter(self.text@, self.delimiter@)
        &&& self.carry@ == carry(self.text@, self.delimiter@)
    }

    /// The characters kept are the carry suffix of the text, which is shorter than the
    /// delimiter.
    pub proof fn law_carry_is_short(&self)
        requires
            self.wf(),
        ensures
            self.carried() == carry(self.text(), self.delimiter()),
            self.carried().len() <= carry_limit(self.delimiter()),
    {
        lemma_scan_bounds(self.text(), self.delimiter@, 0, 0);
    }

    /// A scanner that has seen no text.
    pub fn new(delimiter: &str) -> (scanner: DelimiterScanner)
        ensures
            scanner.wf(),
            scanner.delimiter() == delimiter@,
            scanner.text() == Seq::<char>::empty(),
    {
        let mut chars: Vec<char> = Vec::new();
        append_chars(&mut chars, delimiter);
        assert(carry(Seq::<char>::empty(), chars@) =~= Seq::<char>::empty());
        DelimiterScanner {
            delimiter: chars,
            carry: Vec::new(),
            found: CheckedUsize::new(0),
            ended_on_delimiter: false,
            text: Ghost(Seq::empty()),
        }
    }

    /// Scans the next piece of the text: the characters kept from before, followed by
    /// the piece. What it finds is added to the running count, the end flag tells whether
    /// the last occurrence found ends the text, and of what is left behind the last
    /// occurrence the carry suffix is kept. A piece without text changes nothing.
    pub fn push(&mut self, piece: &str)
        requires
            old(self).wf(),
        ensures
            final(self).wf(),
            final(self).delimiter() == old(self).delimiter(),
            final(self).text() == old(self).text() + piece@,
    {
        if piece.is_empty() {
            assert(self.text@ + piece@ =~= self.text@);
            return ;
        }
        let ghost text = self.text@;
        let ghost delim = self.delimiter@;
        let mut window: Vec<char> = Vec::new();
        core::mem::swap(&mut window, &mut self.carry);
        append_chars(&mut window, piece);
        let found = scan(window.as_slice(), self.delimiter.as_slice());
        let ghost combined = window@;
        proof {
            lemma_scan_window(text, piece@, delim);
            lemma_scan_bounds(text, delim, 0, 0);
            lemma_scan_bounds(combined, delim, 0, 0);
        }
        let limit = if self.delimiter.len() == 0 {
            0
        } else {
            self.delimiter.len() - 1
        };
        let start = if window.len() - found.last_end > limit {
            window.len() - limit
        } else {
            found.last_end
        };
        let ended = found.count > 0 && found.last_end == window.len();
        let kept = window.split_off(start);
        assert(kept@ =~= carry(combined, delim));
        self.found = self.found.add_value(found.count);
        self.ended_on_delimiter = ended;
        self.carry = kept;
        self.text = Ghost(text + piece@);
    }

    /// The number of segments of the text pushed so far, `None` if it is too large for a
    /// `usize`. `has_content` says whether the input that the text comes from holds
    /// anything at all.
    pub fn segments(&self, has_content: bool) -> (total: Option<usize>)
        requires
            self.wf(),
        ensures
            total == fit(
                segment_total(
                    occurrences(self.text(), self.delimiter()),
                    ends_on_delimiter(self.text(), self.delimiter()),
                    has_content,
                ),
            ),
    {
        running_segment_count(&self.found, self.ended_on_delimiter, has_content)
    }
}

} // verus!
