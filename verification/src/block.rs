//! The markup blocks of a catalog page, as plain values.

use crate::text::{eq_ignore_ascii_case, join, joined, same_ignoring_ascii_case, str_eq};
use vstd::prelude::*;

verus! {

/// The class that marks the block with which a course begins.
pub const COURSE_NAME: &'static str = "course-name";

/// The class of a cross-listing notice.
pub const CROSS_LISTED: &'static str = "crosslisted";

/// The class of an instructor note.
pub const INSTRUCTOR: &'static str = "instructor";

/// The class of the block that lists extra requirements.
pub const EXTRA_FIELDS: &'static str = "extraFields";

/// One spelling of the class of a general-education tag.
pub const GEN_ED: &'static str = "gen_ed";

/// The other spelling of the class of a general-education tag.
pub const GEN_ED_ALT: &'static str = "genEd";

/// How class names are compared.
#[derive(Debug, Clone, Copy, PartialEq, Eq, Structural)]
pub enum CaseSensitivity {
    /// Two names are the same when they are equal.
    CaseSensitive,
    /// Two names are the same when they are equal but for the case of their
    /// ASCII letters.
    AsciiCaseInsensitive,
}

impl CaseSensitivity {
    /// Whether `a` and `b` are the same name under this comparison.
    pub open spec fn same(self, a: Seq<char>, b: Seq<char>) -> bool {
        match self {
            CaseSensitivity::CaseSensitive => a == b,
            CaseSensitivity::AsciiCaseInsensitive => same_ignoring_ascii_case(a, b),
        }
    }

    /// Compares two names.
    pub fn names_equal(self, a: &str, b: &str) -> (r: bool)
        ensures
            r == self.same(a@, b@),
    {
        match self {
            CaseSensitivity::CaseSensitive => str_eq(a, b),
            CaseSensitivity::AsciiCaseInsensitive => eq_ignore_ascii_case(a, b),
        }
    }
}

/// One element of the catalog's markup: its style classes, and the text
/// nodes below it in document order.
#[derive(Debug, Clone, PartialEq, Eq)]
pub struct Block {
    pub classes: Vec<String>,
    pub fragments: Vec<String>,
}

/// What a `Block` holds, as mathematical sequences.
pub struct BlockView {
    pub classes: Seq<Seq<char>>,
    pub fragments: Seq<Seq<char>>,
}

impl View for Block {
    type V = BlockView;

    open spec fn view(&self) -> BlockView {
        BlockView { classes: self.classes.deep_view(), fragments: self.fragments.deep_view() }
    }
}

impl DeepView for Block {
    type V = BlockView;

    open spec fn deep_view(&self) -> BlockView {
        self@
    }
}

impl BlockView {
    /// Whether one of the classes is `name` under the given comparison.
    pub open spec fn has_class(self, name: Seq<char>, case_sensitivity: CaseSensitivity) -> bool {
        exists|i: int|
            0 <= i < self.classes.len() && case_sensitivity.same(#[trigger] self.classes[i], name)
    }

    /// Whether one of the classes is `name`, the case of ASCII letters aside:
    /// the comparison by which the catalog's marker classes are found.
    pub open spec fn marked(self, name: Seq<char>) -> bool {
        self.has_class(name, CaseSensitivity::AsciiCaseInsensitive)
    }

    /// All of the block's text, the fragments run together.
    pub open spec fn text(self) -> Seq<char> {
        joined(self.fragments)
    }

    /// Whether a course begins with this block.
    pub open spec fn is_course_name(self) -> bool {
        self.marked(COURSE_NAME@)
    }

    /// Whether this block announces a cross-listing.
    pub open spec fn is_cross_listed(self) -> bool {
        self.marked(CROSS_LISTED@)
    }

    /// Whether this block is an instructor note.
    pub open spec fn is_instructor(self) -> bool {
        self.marked(INSTRUCTOR@)
    }

    /// Whether this block lists extra requirements.
    pub open spec fn is_extra_fields(self) -> bool {
        self.marked(EXTRA_FIELDS@)
    }

    /// Whether this block is a general-education tag, under either spelling
    /// of its class.
    pub open spec fn is_gen_ed(self) -> bool {
        self.marked(GEN_ED@) || self.marked(GEN_ED_ALT@)
    }
}

impl Block {
    /// Tests class membership under the given comparison.
    pub fn has_class(&self, name: &str, case_sensitivity: CaseSensitivity) -> (r: bool)
        ensures
            r == self@.has_class(name@, case_sensitivity),
    {
        let mut i: usize = 0;
        while i < self.classes.len()
            invariant
                i <= self.classes@.len(),
                forall|j: int|
                    0 <= j < i ==> !case_sensitivity.same(#[trigger] self@.classes[j], name@),
            decreases self.classes@.len() - i,
        {
            if case_sensitivity.names_equal(self.classes[i].as_str(), name) {
                assert(case_sensitivity.same(self@.classes[i as int], name@));
                return true;
            }
            i += 1;
        }
        false
    }

    /// The block's whole text.
    pub fn text(&self) -> (r: String)
        ensures
            r@ == self@.text(),
    {
        join(&self.fragments)
    }

    /// The fragment at position `i`, if the block has that many.
    pub fn fragment(&self, i: usize) -> (r: Option<&str>)
        ensures
            match r {
                Some(f) => i < self@.fragments.len() && f@ == self@.fragments[i as int],
                None => i >= self@.fragments.len(),
            },
    {
        if i < self.fragments.len() {
            Some(self.fragments[i].as_str())
        } else {
            None
        }
    }

    /// Whether a course begins with this block.
    pub fn is_course_name(&self) -> (r: bool)
        ensures
            r == self@.is_course_name(),
    {
        self.has_class(COURSE_NAME, CaseSensitivity::AsciiCaseInsensitive)
    }

    /// Whether this block announces a cross-listing.
    pub fn is_cross_listed(&self) -> (r: bool)
        ensures
            r == self@.is_cross_listed(),
    {
        self.has_class(CROSS_LISTED, CaseSensitivity::AsciiCaseInsensitive)
    }

    /// Whether this block is an instructor note.
    pub fn is_instructor(&self) -> (r: bool)
        ensures
            r == self@.is_instructor(),
    {
        self.has_class(INSTRUCTOR, CaseSensitivity::AsciiCaseInsensitive)
    }

    /// Whether this block lists extra requirements.
    pub fn is_extra_fields(&self) -> (r: bool)
        ensures
            r == self@.is_extra_fields(),
    {
        self.has_class(EXTRA_FIELDS, CaseSensitivity::AsciiCaseInsensitive)
    }

    /// Whether this block is a general-education tag.
    pub fn is_gen_ed(&self) -> (r: bool)
        ensures
            r == self@.is_gen_ed(),
    {
        self.has_class(GEN_ED, CaseSensitivity::AsciiCaseInsensitive) || self.has_class(
            GEN_ED_ALT,
            CaseSensitivity::AsciiCaseInsensitive,
        )
    }
}

} // verus!
