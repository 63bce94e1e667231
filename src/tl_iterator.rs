//! A pull-based tokenizer over a Type Language schema: it splits the text
//! into `;`-separated statements, follows the section markers, and hands
//! each remaining statement to the definition parser.
use vstd::prelude::*;

use crate::definition::{parse_range, parse_spec, Category, Definition, ParseError};
use crate::text::{
    chars_of, find_char, find_in, is_ws, lemma_find_in_bounds, remove_comments, starts_with,
    starts_with_at, strip_comments, strip_from, trim, trim_range,
};

verus! {

/// Ends each statement.
pub const DEFINITION_SEP: char = ';';

/// What every section marker begins with.
pub const MARKER_PREFIX: &'static str = "---";

/// Switches to the `Functions` section.
pub const FUNCTIONS_SEP: &'static str = "---functions---";

/// Switches to the `Types` section.
pub const TYPES_SEP: &'static str = "---types---";

/// The index one past the statement that starts at `i`: past its `;`, or the
/// end of `s` where no `;` follows.
pub open spec fn statement_end(s: Seq<char>, i: int) -> int {
    i + find_in(s.subrange(i, s.len() as int), DEFINITION_SEP)
}

pub open spec fn after_statement(s: Seq<char>, i: int) -> int {
    if statement_end(s, i) < s.len() {
        statement_end(s, i) + 1
    } else {
        s.len() as int
    }
}

/// The first statement at or after `i` that is not blank once trimmed,
/// with the index where the next one starts.
pub open spec fn next_statement(s: Seq<char>, i: int) -> Option<(Seq<char>, int)>
    decreases s.len() - i,
    via next_statement_decreases
{
    if i < 0 || i >= s.len() {
        None
    } else {
        let t = trim(s.subrange(i, statement_end(s, i)));
        if t.len() == 0 {
            next_statement(s, after_statement(s, i))
        } else {
            Some((t, after_statement(s, i)))
        }
    }
}

#[via_fn]
proof fn next_statement_decreases(s: Seq<char>, i: int) {
    if 0 <= i < s.len() {
        lemma_statement_end(s, i);
    }
}

pub proof fn lemma_statement_end(s: Seq<char>, i: int)
    requires
        0 <= i < s.len(),
    ensures
        i <= statement_end(s, i) <= s.len(),
        i < after_statement(s, i) <= s.len(),
{
    lemma_find_in_bounds(s.subrange(i, s.len() as int), DEFINITION_SEP);
}

/// What one step of the tokenizer meets: the end of the text, with the
/// section then in force; or a statement, or the error it gives before any
/// parsing, with the index after it and the section it belongs to.
pub enum Step {
    End { category: Category },
    Item { statement: Result<Seq<char>, ParseError>, next: int, category: Category },
}

/// The step taken from index `i` in section `category`. A marker switches the
/// section and leaves the rest of its statement; a marker that stands alone
/// gives no item, and a statement that starts like a marker but is none gives
/// `UnknownSeparator`.
pub open spec fn step(s: Seq<char>, i: int, category: Category) -> Step
    decreases s.len() - i,
    via step_decreases
{
    match next_statement(s, i) {
        None => Step::End { category },
        Some((t, next)) => {
            if starts_with(t, MARKER_PREFIX@) {
                if starts_with(t, FUNCTIONS_SEP@) {
                    let rest = trim(t.subrange(FUNCTIONS_SEP@.len() as int, t.len() as int));
                    if rest.len() == 0 {
                        step(s, next, Category::Functions)
                    } else {
                        Step::Item { statement: Ok(rest), next, category: Category::Functions }
                    }
                } else if starts_with(t, TYPES_SEP@) {
                    let rest = trim(t.subrange(TYPES_SEP@.len() as int, t.len() as int));
                    if rest.len() == 0 {
                        step(s, next, Category::Types)
                    } else {
                        Step::Item { statement: Ok(rest), next, category: Category::Types }
                    }
                } else {
                    Step::Item { statement: Err(ParseError::UnknownSeparator), next, category }
                }
            } else {
                Step::Item { statement: Ok(t), next, category }
            }
        },
    }
}

#[via_fn]
proof fn step_decreases(s: Seq<char>, i: int, category: Category) {
    lemma_next_statement_advances(s, i);
}

/// A statement found from `i` lies after `i`, within the text.
pub proof fn lemma_next_statement_advances(s: Seq<char>, i: int)
    ensures
        next_statement(s, i) matches Some((t, next)) ==> i < next <= s.len() && t.len() > 0,
    decreases s.len() - i,
{
    if 0 <= i < s.len() {
        lemma_statement_end(s, i);
        lemma_next_statement_advances(s, after_statement(s, i));
    }
}

/// The section in force after the statement `t`, where `category` was in
/// force before it.
pub open spec fn apply_marker(t: Seq<char>, category: Category) -> Category {
    if starts_with(t, MARKER_PREFIX@) {
        if starts_with(t, FUNCTIONS_SEP@) {
            Category::Functions
        } else if starts_with(t, TYPES_SEP@) {
            Category::Types
        } else {
            category
        }
    } else {
        category
    }
}

/// The section in force once the markers among the statements that start at
/// or after `i` and end by `j` have been followed, from `category`.
pub open spec fn section_through(s: Seq<char>, i: int, j: int, category: Category) -> Category
    decreases s.len() - i,
    via section_through_decreases
{
    match next_statement(s, i) {
        None => category,
        Some((t, next)) => if next <= j {
            section_through(s, next, j, apply_marker(t, category))
        } else {
            category
        },
    }
}

#[via_fn]
proof fn section_through_decreases(s: Seq<char>, i: int, j: int, category: Category) {
    lemma_next_statement_advances(s, i);
}

/// The cursor and section after `k` steps over `s` from its start.
pub open spec fn state_after(s: Seq<char>, k: nat) -> (int, Category)
    decreases k,
{
    if k == 0 {
        (0, Category::Types)
    } else {
        let (i, c) = state_after(s, (k - 1) as nat);
        match step(s, i, c) {
            Step::End { category } => (s.len() as int, category),
            Step::Item { next, category, .. } => (next, category),
        }
    }
}

/// One step follows exactly the markers among the statements it consumes.
pub proof fn lemma_step_section(s: Seq<char>, i: int, category: Category)
    ensures
        match step(s, i, category) {
            Step::End { category: c } => forall|j: int|
                j >= s.len() ==> #[trigger] section_through(s, i, j, category) == c,
            Step::Item { next, category: c, .. } => forall|j: int|
                j >= next ==> #[trigger] section_through(s, i, j, category) == section_through(
                    s,
                    next,
                    j,
                    c,
                ),
        },
    decreases s.len() - i,
{
    lemma_next_statement_advances(s, i);
    match next_statement(s, i) {
        None => {},
        Some((t, next)) => {
            if starts_with(t, MARKER_PREFIX@) && starts_with(t, FUNCTIONS_SEP@) {
                lemma_step_section(s, next, Category::Functions);
            } else if starts_with(t, MARKER_PREFIX@) && starts_with(t, TYPES_SEP@) {
                lemma_step_section(s, next, Category::Types);
            }
            assert forall|j: int| j >= next implies #[trigger] section_through(s, i, j, category)
                == section_through(s, next, j, apply_marker(t, category)) by {}
            lemma_step_next_bound(s, next, Category::Functions);
            lemma_step_next_bound(s, next, Category::Types);
            match step(s, i, category) {
                Step::End { category: c } => {
                    assert forall|j: int| j >= s.len() implies #[trigger] section_through(
                        s,
                        i,
                        j,
                        category,
                    ) == c by {
                        assert(section_through(s, next, j, apply_marker(t, category)) == c);
                    }
                },
                Step::Item { next: n, category: c, .. } => {
                    assert forall|j: int| j >= n implies #[trigger] section_through(
                        s,
                        i,
                        j,
                        category,
                    ) == section_through(s, n, j, c) by {
                        assert(j >= next);
                    }
                },
            }
        },
    }
}

/// Every definition is tagged with the section that the markers set: after
/// any number of steps from the start of a document, the section in force,
/// which tags the item just yielded, is the one named by the last marker
/// among the statements consumed so far, and `Types` before any marker.
pub proof fn lemma_sections_follow_markers(s: Seq<char>, k: nat)
    ensures
        0 <= state_after(s, k).0 <= s.len(),
        state_after(s, k).1 == section_through(s, 0, state_after(s, k).0, Category::Types),
        forall|j: int|
            j >= state_after(s, k).0 ==> #[trigger] section_through(s, 0, j, Category::Types)
                == section_through(s, state_after(s, k).0, j, state_after(s, k).1),
    decreases k,
{
    let (i, c) = state_after(s, k);
    if k > 0 {
        let (pi, pc) = state_after(s, (k - 1) as nat);
        lemma_sections_follow_markers(s, (k - 1) as nat);
        lemma_step_section(s, pi, pc);
        lemma_next_statement_advances(s, pi);
        match step(s, pi, pc) {
            Step::End { .. } => {},
            Step::Item { .. } => {
                lemma_step_next_bound(s, pi, pc);
            },
        }
        assert forall|j: int| j >= i implies #[trigger] section_through(s, 0, j, Category::Types)
            == section_through(s, i, j, c) by {
            assert(section_through(s, 0, j, Category::Types) == section_through(s, pi, j, pc));
        }
    }
    lemma_next_statement_advances(s, i);
    assert(section_through(s, i, i, c) == c);
}

/// A step moves the cursor forward, never past the end.
pub proof fn lemma_step_next_bound(s: Seq<char>, i: int, category: Category)
    ensures
        step(s, i, category) matches Step::Item { next, .. } ==> i < next <= s.len(),
    decreases s.len() - i,
{
    lemma_next_statement_advances(s, i);
    if let Some((t, next)) = next_statement(s, i) {
        lemma_step_next_bound(s, next, Category::Functions);
        lemma_step_next_bound(s, next, Category::Types);
    }
}

/// A stretch of whitespace alone has no statement in it.
proof fn lemma_blank_trims_away(s: Seq<char>)
    requires
        forall|k: int| 0 <= k < s.len() ==> is_ws(#[trigger] s[k]),
    ensures
        trim(s).len() == 0,
    decreases s.len(),
{
    if s.len() > 0 {
        lemma_blank_trims_away(s.drop_first());
    }
}

/// From any index of a text made only of whitespace and `;`, no statement is
/// found.
proof fn lemma_blank_has_no_statement(s: Seq<char>, i: int)
    requires
        forall|k: int| 0 <= k < s.len() ==> is_ws(#[trigger] s[k]) || s[k] == DEFINITION_SEP,
    ensures
        next_statement(s, i) is None,
    decreases s.len() - i,
{
    if 0 <= i < s.len() {
        lemma_statement_end(s, i);
        let e = statement_end(s, i);
        lemma_find_in_bounds(s.subrange(i, s.len() as int), DEFINITION_SEP);
        let piece = s.subrange(i, e);
        assert forall|k: int| 0 <= k < piece.len() implies is_ws(#[trigger] piece[k]) by {
            assert(piece[k] == s.subrange(i, s.len() as int)[k]);
        }
        lemma_blank_trims_away(piece);
        lemma_blank_has_no_statement(s, after_statement(s, i));
    }
}

/// A text without `/` loses nothing to comment stripping.
proof fn lemma_strip_keeps_plain(s: Seq<char>, i: int, in_comment: bool)
    requires
        0 <= i <= s.len(),
        forall|k: int| 0 <= k < s.len() ==> #[trigger] s[k] != '/',
        !in_comment,
    ensures
        strip_from(s, i, in_comment) == s.subrange(i, s.len() as int),
    decreases s.len() - i,
{
    if i < s.len() {
        lemma_strip_keeps_plain(s, i + 1, false);
        assert(s.subrange(i, s.len() as int) =~= seq![s[i]] + s.subrange(i + 1, s.len() as int));
    }
}

/// A document made only of whitespace and `;` yields no item: the first
/// step from its start already meets the end.
pub proof fn lemma_blank_document_yields_nothing(doc: Seq<char>)
    requires
        forall|k: int| 0 <= k < doc.len() ==> is_ws(#[trigger] doc[k]) || doc[k] == DEFINITION_SEP,
    ensures
        step(strip_comments(doc), 0, Category::Types) is End,
{
    assert forall|k: int| 0 <= k < doc.len() implies #[trigger] doc[k] != '/' by {
        assert(is_ws(doc[k]) || doc[k] == DEFINITION_SEP);
    }
    lemma_strip_keeps_plain(doc, 0, false);
    assert(doc.subrange(0, doc.len() as int) =~= doc);
    lemma_blank_has_no_statement(doc, 0);
}

/// The state of a tokenizer: the text, where the next statement starts, and
/// the section in force.
pub struct TLIteratorView {
    pub contents: Seq<char>,
    pub index: nat,
    pub category: Category,
}

/// An iterator over Type Language definitions.
pub struct TLIterator {
    contents: Vec<char>,
    index: usize,
    category: Category,
}

impl View for TLIterator {
    type V = TLIteratorView;

    closed spec fn view(&self) -> TLIteratorView {
        TLIteratorView {
            contents: self.contents@,
            index: self.index as nat,
            category: self.category,
        }
    }
}

impl TLIterator {
    /// The cursor never passes the end of the text.
    pub open spec fn wf(&self) -> bool {
        self@.index <= self@.contents.len()
    }

    /// A tokenizer over `contents`, whose line comments are removed first,
    /// starting at its beginning in the `Types` section.
    pub fn new(contents: &str) -> (r: Self)
        ensures
            r.wf(),
            r@.contents == strip_comments(contents@),
            r@.index == 0,
            r@.category == Category::Types,
    {
        let chars = chars_of(contents);
        TLIterator { contents: remove_comments(&chars), index: 0, category: Category::Types }
    }

    /// The next definition, or the error its statement gives, or `None` once
    /// the text is exhausted.
    ///
    /// Each call that yields an item moves the cursor strictly forward; an
    /// error never stops the calls that follow.
    pub fn next(&mut self) -> (r: Option<Result<Definition, ParseError>>)
        requires
            old(self).wf(),
        ensures
            final(self).wf(),
            final(self)@.contents == old(self)@.contents,
            match step(old(self)@.contents, old(self)@.index as int, old(self)@.category) {
                Step::End { category } => {
                    &&& r is None
                    &&& final(self)@.index == final(self)@.contents.len()
                    &&& final(self)@.category == category
                },
                Step::Item { statement, next, category } => {
                    &&& final(self)@.index == next
                    &&& final(self)@.category == category
                    &&& match statement {
                        Ok(t) => match parse_spec(t, category) {
                            Ok(d) => r matches Some(Ok(def)) && def@ == d,
                            Err(e) => r == Some(Err::<Definition, ParseError>(e)),
                        },
                        Err(e) => r == Some(Err::<Definition, ParseError>(e)),
                    }
                },
            },
            r is Some ==> final(self)@.index > old(self)@.index,
    {
        let ghost s = self.contents@;
        let ghost start = self.index;
        let ghost goal = step(s, self.index as int, self.category);
        let len = self.contents.len();
        loop
            invariant
                self.contents@ == s,
                s == old(self)@.contents,
                start == old(self)@.index,
                goal == step(s, start as int, old(self)@.category),
                len == s.len(),
                start <= self.index <= len,
                step(s, self.index as int, self.category) == goal,
            decreases len - self.index,
        {
            if self.index >= len {
                return None;
            }
            let i = self.index;
            proof {
                lemma_statement_end(s, i as int);
            }
            let end = find_char(&self.contents, i, len, DEFINITION_SEP);
            let (a, b) = trim_range(&self.contents, i, end);
            self.index = if end < len {
                end + 1
            } else {
                len
            };
            assert(self.index == after_statement(s, i as int));
            if a == b {
                continue;
            }
            let ghost t = s.subrange(a as int, b as int);
            assert(next_statement(s, i as int) == Some((t, self.index as int)));
            if starts_with_at(&self.contents, a, b, MARKER_PREFIX) {
                if starts_with_at(&self.contents, a, b, FUNCTIONS_SEP) {
                    self.category = Category::Functions;
                    let skip = FUNCTIONS_SEP.unicode_len();
                    assert(t.subrange(skip as int, t.len() as int) =~= s.subrange(a + skip, b as int));
                    let (ra, rb) = trim_range(&self.contents, a + skip, b);
                    if ra == rb {
                        continue;
                    }
                    return Some(parse_range(&self.contents, ra, rb, Category::Functions));
                } else if starts_with_at(&self.contents, a, b, TYPES_SEP) {
                    self.category = Category::Types;
                    let skip = TYPES_SEP.unicode_len();
                    assert(t.subrange(skip as int, t.len() as int) =~= s.subrange(a + skip, b as int));
                    let (ra, rb) = trim_range(&self.contents, a + skip, b);
                    if ra == rb {
                        continue;
                    }
                    return Some(parse_range(&self.contents, ra, rb, Category::Types));
                } else {
                    return Some(Err(ParseError::UnknownSeparator));
                }
            }
            return Some(parse_range(&self.contents, a, b, self.category));
        }
    }
}

} // verus!
