//! Building one course record from the group of blocks of one course.
//!
//! The first three blocks of a group are mandatory and read by position: the
//! header, the description and the credit hours. From the sixth block on, a
//! cursor looks for the optional blocks in a fixed order, and never looks
//! past a block that is not the one it expects.

use crate::block::{Block, BlockView};
use crate::gen_ed::{gen_ed_code, GenEds};
use crate::text::{
    alphabetic, chars_of, is_alphabetic, parse_u32, parsed_u32, pieces, split, split_at_first,
    split_once, trim, trimmed,
};
use vstd::prelude::*;

verus! {

/// The position at which the scan for optional blocks begins.
pub const FIRST_OPTIONAL: usize = 5;

/// A catalog number: the integer, and the letter behind it where there is one.
pub type CourseNumber = (u32, Option<char>);

/// One course of the catalog.
#[derive(Debug, PartialEq, Eq)]
pub struct Class {
    pub department: String,
    pub course_number: (u32, Option<char>),
    pub title: String,
    pub description: String,
    pub credits: u32,
    pub requirements: Option<Vec<String>>,
    pub gen_ed: Option<GenEds>,
    pub cross_listed: Option<String>,
}

/// What a `Class` holds, as mathematical values.
pub struct ClassView {
    pub department: Seq<char>,
    pub course_number: (u32, Option<char>),
    pub title: Seq<char>,
    pub description: Seq<char>,
    pub credits: u32,
    pub requirements: Option<Seq<Seq<char>>>,
    pub gen_ed: Option<GenEds>,
    pub cross_listed: Option<Seq<char>>,
}

impl View for Class {
    type V = ClassView;

    open spec fn view(&self) -> ClassView {
        ClassView {
            department: self.department@,
            course_number: self.course_number,
            title: self.title@,
            description: self.description@,
            credits: self.credits,
            requirements: match self.requirements {
                Some(list) => Some(list.deep_view()),
                None => None,
            },
            gen_ed: self.gen_ed,
            cross_listed: match self.cross_listed {
                Some(text) => Some(text@),
                None => None,
            },
        }
    }
}

impl DeepView for Class {
    type V = ClassView;

    open spec fn deep_view(&self) -> ClassView {
        self@
    }
}

/// The failure of a group that lacks a mandatory block, or whose mandatory
/// text has not the expected shape. It carries the text of every block of
/// the group, for diagnosis.
#[derive(Debug, Clone, PartialEq, Eq)]
pub struct MalformedGroup {
    pub text: Vec<String>,
}

impl View for MalformedGroup {
    type V = Seq<Seq<char>>;

    open spec fn view(&self) -> Seq<Seq<char>> {
        self.text.deep_view()
    }
}

impl DeepView for MalformedGroup {
    type V = Seq<Seq<char>>;

    open spec fn deep_view(&self) -> Seq<Seq<char>> {
        self@
    }
}

/// The text of each block of `group`.
pub open spec fn text_of(group: Seq<BlockView>) -> Seq<Seq<char>> {
    Seq::new(group.len(), |i: int| group[i].text())
}

/// The number that `token` denotes, given whether its last character is a
/// suffix letter. With a suffix the characters before it are the integer;
/// without one the whole token is. An empty token denotes nothing.
pub open spec fn course_number_given(token: Seq<char>, suffixed: bool) -> Option<CourseNumber> {
    if token.len() == 0 {
        None
    } else if suffixed {
        match parsed_u32(token.drop_last()) {
            Some(n) => Some((n, Some(token.last()))),
            None => None,
        }
    } else {
        match parsed_u32(token) {
            Some(n) => Some((n, None)),
            None => None,
        }
    }
}

/// The number that `token` denotes: its last character is a suffix exactly
/// when it is alphabetic.
pub open spec fn course_number_of(token: Seq<char>) -> Option<CourseNumber> {
    course_number_given(token, token.len() > 0 && alphabetic(token.last()))
}

/// The department, number and title that a header block yields. Its second
/// fragment is the department, a space, and the number token; its third is
/// the title. The first fragment is ignored, as are any after the third.
pub open spec fn header_of(block: BlockView) -> Option<(Seq<char>, CourseNumber, Seq<char>)> {
    if block.fragments.len() < 3 {
        None
    } else {
        match split_at_first(block.fragments[1], ' ') {
            Some((department, token)) => match course_number_of(token) {
                Some(number) => Some((department, number, block.fragments[2])),
                None => None,
            },
            None => None,
        }
    }
}

/// The credit hours that a block yields: its third fragment, trimmed, read
/// as an integer.
pub open spec fn credits_of(block: BlockView) -> Option<u32> {
    if block.fragments.len() < 3 {
        None
    } else {
        parsed_u32(trimmed(block.fragments[2]))
    }
}

/// The requirements that the text of a block lists: what follows the first
/// colon, split at semicolons, each piece trimmed. Without a colon the text
/// lists nothing.
pub open spec fn requirement_list(text: Seq<char>) -> Option<Seq<Seq<char>>> {
    match split_at_first(text, ':') {
        Some((_, list)) => Some(pieces(list, ';').map_values(|piece: Seq<char>| trimmed(piece))),
        None => None,
    }
}

/// Whether the scan finds a cross-listing notice where it begins.
pub open spec fn cross_listing_found(group: Seq<BlockView>) -> bool {
    FIRST_OPTIONAL < group.len() && group[FIRST_OPTIONAL as int].is_cross_listed()
}

/// The cross-listing: the text of the block two positions behind the notice,
/// where the group reaches that far.
pub open spec fn cross_listed_of(group: Seq<BlockView>) -> Option<Seq<char>> {
    if cross_listing_found(group) && FIRST_OPTIONAL + 2 < group.len() {
        Some(group[FIRST_OPTIONAL + 2].text())
    } else {
        None
    }
}

/// The cursor behind the cross-listing step: past the notice, the label and
/// the value, or at the end of a group that is shorter than that.
pub open spec fn after_cross_listing(group: Seq<BlockView>) -> int {
    if !cross_listing_found(group) {
        FIRST_OPTIONAL as int
    } else if FIRST_OPTIONAL + 2 < group.len() {
        FIRST_OPTIONAL + 3
    } else {
        group.len() as int
    }
}

/// The cursor behind the instructor step: an instructor note is passed over.
pub open spec fn after_instructor(group: Seq<BlockView>) -> int {
    let cursor = after_cross_listing(group);
    if cursor < group.len() && group[cursor].is_instructor() {
        cursor + 1
    } else {
        cursor
    }
}

/// Whether the scan finds the requirements block.
pub open spec fn requirements_found(group: Seq<BlockView>) -> bool {
    after_instructor(group) < group.len() && group[after_instructor(group)].is_extra_fields()
}

/// The requirements of the course.
pub open spec fn requirements_of(group: Seq<BlockView>) -> Option<Seq<Seq<char>>> {
    if requirements_found(group) {
        requirement_list(group[after_instructor(group)].text())
    } else {
        None
    }
}

/// The cursor behind the requirements step.
pub open spec fn after_requirements(group: Seq<BlockView>) -> int {
    if requirements_found(group) {
        after_instructor(group) + 1
    } else {
        after_instructor(group)
    }
}

/// The general-education requirement of the course: the code in the third
/// fragment of the tag block. A tag block without that fragment, and a code
/// outside the vocabulary, yield none.
pub open spec fn gen_ed_of(group: Seq<BlockView>) -> Option<GenEds> {
    let cursor = after_requirements(group);
    if cursor < group.len() && group[cursor].is_gen_ed() && group[cursor].fragments.len() > 2 {
        gen_ed_code(group[cursor].fragments[2])
    } else {
        None
    }
}

/// The record of `group`, or `None` where the group is malformed: it has
/// fewer than three blocks, or its header or its credit hours cannot be read.
pub open spec fn record_of(group: Seq<BlockView>) -> Option<ClassView> {
    if group.len() < 3 {
        None
    } else {
        match (header_of(group[0]), credits_of(group[2])) {
            (Some((department, course_number, title)), Some(credits)) => Some(
                ClassView {
                    department,
                    course_number,
                    title,
                    description: trimmed(group[1].text()),
                    credits,
                    requirements: requirements_of(group),
                    gen_ed: gen_ed_of(group),
                    cross_listed: cross_listed_of(group),
                },
            ),
            _ => None,
        }
    }
}

/// What building a record from `group` gives: the record of the group, or
/// for a malformed group the text of its blocks.
#[verifier::opaque]
pub open spec fn outcome_of(group: Seq<BlockView>) -> Result<ClassView, Seq<Seq<char>>> {
    match record_of(group) {
        Some(class) => Ok(class),
        None => Err(text_of(group)),
    }
}

/// What an outcome holds, as mathematical values.
pub open spec fn outcome_view(outcome: Result<Class, MalformedGroup>) -> Result<
    ClassView,
    Seq<Seq<char>>,
> {
    match outcome {
        Ok(class) => Ok(class@),
        Err(failure) => Err(failure@),
    }
}

/// Reads a number token, given whether its last character is a suffix.
pub fn split_course_number(token: &str, suffixed: bool) -> (r: Option<CourseNumber>)
    ensures
        r == course_number_given(token@, suffixed),
{
    let cs = chars_of(token);
    let n = cs.len();
    if n == 0 {
        None
    } else if suffixed {
        let digits = token.substring_char(0, n - 1);
        assert(digits@ =~= token@.drop_last());
        match parse_u32(digits) {
            Some(number) => Some((number, Some(cs[n - 1]))),
            None => None,
        }
    } else {
        match parse_u32(token) {
            Some(number) => Some((number, None)),
            None => None,
        }
    }
}

/// Reads a number token such as `101` or `101L`.
pub fn parse_course_number(token: &str) -> (r: Option<CourseNumber>)
    ensures
        r == course_number_of(token@),
{
    let cs = chars_of(token);
    let n = cs.len();
    let suffixed = n > 0 && is_alphabetic(cs[n - 1]);
    split_course_number(token, suffixed)
}

/// Reads the header block of a group.
pub fn parse_header(block: &Block) -> (r: Option<(String, CourseNumber, String)>)
    ensures
        match r {
            Some((department, number, title)) => header_of(block@) == Some(
                (department@, number, title@),
            ),
            None => header_of(block@) is None,
        },
{
    if block.fragments.len() < 3 {
        return None;
    }
    match split_once(block.fragments[1].as_str(), ' ') {
        Some((department, token)) => match parse_course_number(token) {
            Some(number) => Some(
                (department.to_owned(), number, block.fragments[2].as_str().to_owned()),
            ),
            None => None,
        },
        None => None,
    }
}

/// Reads the credit hours from the third block of a group.
pub fn parse_credits(block: &Block) -> (r: Option<u32>)
    ensures
        r == credits_of(block@),
{
    if block.fragments.len() < 3 {
        return None;
    }
    parse_u32(trim(block.fragments[2].as_str()))
}

/// Reads the list of requirements from the text of its block.
pub fn parse_requirements(text: &str) -> (r: Option<Vec<String>>)
    ensures
        match r {
            Some(list) => requirement_list(text@) == Some(list.deep_view()),
            None => requirement_list(text@) is None,
        },
{
    match split_once(text, ':') {
        Some((_, list)) => {
            let parts = split(list, ';');
            let ghost wanted = pieces(list@, ';').map_values(|piece: Seq<char>| trimmed(piece));
            let mut out: Vec<String> = Vec::new();
            let mut i: usize = 0;
            while i < parts.len()
                invariant
                    i <= parts@.len(),
                    parts.deep_view() == pieces(list@, ';'),
                    wanted == pieces(list@, ';').map_values(|piece: Seq<char>| trimmed(piece)),
                    out.deep_view() == wanted.subrange(0, i as int),
                decreases parts@.len() - i,
            {
                let piece = trim(parts[i]).to_owned();
                let ghost before = out.deep_view();
                assert(parts.deep_view()[i as int] == parts@[i as int]@);
                out.push(piece);
                assert(out.deep_view() =~= before.push(piece@));
                assert(before.push(piece@) =~= wanted.subrange(0, i + 1));
                i += 1;
            }
            assert(wanted.subrange(0, i as int) =~= wanted);
            Some(out)
        },
        None => None,
    }
}

impl MalformedGroup {
    /// The failure that reports `group`.
    pub fn of(group: &[Block]) -> (failure: MalformedGroup)
        ensures
            failure@ == text_of(group.deep_view()),
    {
        let mut text: Vec<String> = Vec::new();
        let mut i: usize = 0;
        while i < group.len()
            invariant
                i <= group@.len(),
                text.deep_view() == text_of(group.deep_view()).subrange(0, i as int),
            decreases group@.len() - i,
        {
            let ghost before = text.deep_view();
            let block_text = group[i].text();
            text.push(block_text);
            assert(text.deep_view() =~= before.push(block_text@));
            assert(before.push(block_text@) =~= text_of(group.deep_view()).subrange(0, i + 1));
            i += 1;
        }
        assert(text_of(group.deep_view()).subrange(0, i as int) =~= text_of(group.deep_view()));
        MalformedGroup { text }
    }
}

impl Class {
    /// Builds the record of one course from its group of blocks.
    ///
    /// The group is malformed, and the result an error that carries its text,
    /// exactly when it has fewer than three blocks, its header has fewer than
    /// three fragments or no space in the second, the number token is not an
    /// integer with at most one letter behind it, or the third fragment of
    /// the third block is missing or not an integer. The optional blocks
    /// never make a group malformed.
    pub fn new(group: &[Block]) -> (r: Result<Class, MalformedGroup>)
        ensures
            outcome_view(r) == outcome_of(group.deep_view()),
    {
        let ghost blocks = group.deep_view();
        proof {
            reveal(outcome_of);
        }
        let n = group.len();
        if n < 3 {
            return Err(MalformedGroup::of(group));
        }
        assert(blocks[0] == group@[0]@ && blocks[1] == group@[1]@ && blocks[2] == group@[2]@);
        let (department, course_number, title) = match parse_header(&group[0]) {
            Some(header) => header,
            None => {
                return Err(MalformedGroup::of(group));
            },
        };
        let credits = match parse_credits(&group[2]) {
            Some(credits) => credits,
            None => {
                return Err(MalformedGroup::of(group));
            },
        };
        let text = group[1].text();
        let description = trim(text.as_str()).to_owned();

        let mut cursor: usize = FIRST_OPTIONAL;
        let mut cross_listed: Option<String> = None;
        if cursor < n && group[cursor].is_cross_listed() {
            if cursor + 2 < n {
                cross_listed = Some(group[cursor + 2].text());
                cursor = cursor + 3;
            } else {
                cursor = n;
            }
        }
        assert(cursor == after_cross_listing(blocks));
        if cursor < n && group[cursor].is_instructor() {
            cursor = cursor + 1;
        }
        assert(cursor == after_instructor(blocks));
        let mut requirements: Option<Vec<String>> = None;
        if cursor < n && group[cursor].is_extra_fields() {
            let text = group[cursor].text();
            requirements = parse_requirements(text.as_str());
            cursor = cursor + 1;
        }
        assert(cursor == after_requirements(blocks));
        let mut gen_ed: Option<GenEds> = None;
        if cursor < n && group[cursor].is_gen_ed() {
            match group[cursor].fragment(2) {
                Some(code) => {
                    gen_ed = GenEds::from_str(code);
                },
                None => {},
            }
        }
        Ok(
            Class {
                department,
                course_number,
                title,
                description,
                credits,
                requirements,
                gen_ed,
                cross_listed,
            },
        )
    }
}

/// Building is a function of the group: two outcomes for one group hold the
/// same values, field by field and character by character.
pub proof fn lemma_build_is_deterministic(
    group: Seq<BlockView>,
    first: Result<Class, MalformedGroup>,
    second: Result<Class, MalformedGroup>,
)
    requires
        outcome_view(first) == outcome_of(group),
        outcome_view(second) == outcome_of(group),
    ensures
        outcome_view(first) == outcome_view(second),
{
}

/// Where the sixth block announces a cross-listing and the group has an
/// eighth, the cross-listing is the text of the eighth block, and the scan
/// for the other optional blocks goes on at the ninth.
pub proof fn lemma_cross_listing_resumes(group: Seq<BlockView>)
    requires
        group.len() > 7,
        group[5].is_cross_listed(),
    ensures
        cross_listed_of(group) == Some(group[7].text()),
        after_cross_listing(group) == 8,
        record_of(group) matches Some(class) ==> class.cross_listed == Some(group[7].text()),
{
}

} // verus!
