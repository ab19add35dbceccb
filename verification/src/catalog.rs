//! From a catalog page to its course records.
//!
//! `extract` runs the two steps on a block sequence: it segments the blocks
//! into groups and builds one record from each group. `get_class_list` first
//! has the page parsed and the blocks of its course list handed over.

use crate::block::{Block, BlockView};
use crate::record::{outcome_of, Class, ClassView, MalformedGroup};
use crate::segment::{groups_of, segment};
use vstd::prelude::*;

verus! {

/// The CSS selector of the element whose children are the catalog's blocks.
pub const COURSE_LIST: &'static str = "div.courselist";

/// The longest page that is handed to the HTML parser, in bytes: 2^29.
///
/// The parser keeps text in buffers whose length is a `u32`, and a buffer
/// that has to grow is rounded up to a power of two, which fails by a panic
/// above 2^31 bytes. A buffer can get longer than the input behind it: in
/// attribute values, in comments and in the text of some elements the
/// parser writes the three bytes of U+FFFD for a NUL byte. With this limit a
/// buffer stays under 2^31 bytes even at four bytes for one.
pub const MAX_PAGE_BYTES: usize = 0x2000_0000;

/// What a run does when it meets a malformed group.
#[derive(Debug, Clone, Copy, PartialEq, Eq, Structural)]
pub enum MalformedPolicy {
    /// The run ends with the failure of the first malformed group.
    Abort,
    /// The run passes over the group, keeps its failure, and goes on.
    Skip,
}

/// The result of a run: the records, in the order of their groups, and the
/// failures of the groups that were passed over, in the same order.
#[derive(Debug, PartialEq, Eq)]
pub struct Extraction {
    pub records: Vec<Class>,
    pub skipped: Vec<MalformedGroup>,
}

/// What an `Extraction` holds, as mathematical values.
pub struct ExtractionView {
    pub records: Seq<ClassView>,
    pub skipped: Seq<Seq<Seq<char>>>,
}

impl View for Extraction {
    type V = ExtractionView;

    open spec fn view(&self) -> ExtractionView {
        ExtractionView { records: self.records.deep_view(), skipped: self.skipped.deep_view() }
    }
}

/// Why no records came of a page.
#[derive(Debug, PartialEq, Eq)]
pub enum CatalogError {
    /// The page has more than `MAX_PAGE_BYTES` bytes.
    PageTooLong,
    /// The page holds no course list.
    NoCourseList,
    /// A group was malformed, and the policy was to abort.
    Malformed(MalformedGroup),
}

/// What a `CatalogError` holds, as mathematical values.
pub enum CatalogErrorView {
    PageTooLong,
    NoCourseList,
    Malformed(Seq<Seq<char>>),
}

impl View for CatalogError {
    type V = CatalogErrorView;

    open spec fn view(&self) -> CatalogErrorView {
        match self {
            CatalogError::PageTooLong => CatalogErrorView::PageTooLong,
            CatalogError::NoCourseList => CatalogErrorView::NoCourseList,
            CatalogError::Malformed(failure) => CatalogErrorView::Malformed(failure@),
        }
    }
}

/// The values of the successes among `outcomes`, in their order.
pub open spec fn successes<A, B>(outcomes: Seq<Result<A, B>>) -> Seq<A>
    decreases outcomes.len(),
{
    if outcomes.len() == 0 {
        Seq::empty()
    } else {
        match outcomes.last() {
            Ok(value) => successes(outcomes.drop_last()).push(value),
            Err(_) => successes(outcomes.drop_last()),
        }
    }
}

/// The values of the failures among `outcomes`, in their order.
pub open spec fn failures<A, B>(outcomes: Seq<Result<A, B>>) -> Seq<B>
    decreases outcomes.len(),
{
    if outcomes.len() == 0 {
        Seq::empty()
    } else {
        match outcomes.last() {
            Ok(_) => failures(outcomes.drop_last()),
            Err(failure) => failures(outcomes.drop_last()).push(failure),
        }
    }
}

/// What building gives for each of `groups`.
pub open spec fn outcomes_of(groups: Seq<Seq<BlockView>>) -> Seq<
    Result<ClassView, Seq<Seq<char>>>,
> {
    Seq::new(groups.len(), |i: int| outcome_of(groups[i]))
}

/// What a run over `groups` gives under `policy`.
///
/// Under `Skip` a run always succeeds, with the records of the well-formed
/// groups and the failures of the others. Under `Abort` it succeeds exactly
/// when no group is malformed, and otherwise fails with the failure of the
/// first malformed group.
pub open spec fn run_of(groups: Seq<Seq<BlockView>>, policy: MalformedPolicy) -> Result<
    ExtractionView,
    Seq<Seq<char>>,
> {
    let records = successes(outcomes_of(groups));
    let skipped = failures(outcomes_of(groups));
    if policy == MalformedPolicy::Abort && skipped.len() > 0 {
        Err(skipped[0])
    } else {
        Ok(ExtractionView { records, skipped })
    }
}

/// What the outcome of a run holds, as mathematical values.
pub open spec fn run_view(outcome: Result<Extraction, MalformedGroup>) -> Result<
    ExtractionView,
    Seq<Seq<char>>,
> {
    match outcome {
        Ok(extraction) => Ok(extraction@),
        Err(failure) => Err(failure@),
    }
}

/// What the blocks of a course list give under `policy`, where `None`
/// stands for a page without a course list.
pub open spec fn listing_of(blocks: Option<Seq<BlockView>>, policy: MalformedPolicy) -> Result<
    ExtractionView,
    CatalogErrorView,
> {
    match blocks {
        None => Err(CatalogErrorView::NoCourseList),
        Some(blocks) => match run_of(groups_of(blocks), policy) {
            Ok(extraction) => Ok(extraction),
            Err(failure) => Err(CatalogErrorView::Malformed(failure)),
        },
    }
}

/// What the outcome of a listing holds, as mathematical values.
pub open spec fn listing_view(outcome: Result<Extraction, CatalogError>) -> Result<
    ExtractionView,
    CatalogErrorView,
> {
    match outcome {
        Ok(extraction) => Ok(extraction@),
        Err(error) => Err(error@),
    }
}

/// Every outcome is counted once: among the successes or among the failures.
pub proof fn lemma_every_outcome_counted<A, B>(outcomes: Seq<Result<A, B>>)
    ensures
        successes(outcomes).len() + failures(outcomes).len() == outcomes.len(),
    decreases outcomes.len(),
{
    if outcomes.len() > 0 {
        lemma_every_outcome_counted(outcomes.drop_last());
    }
}

/// The first failure is that of the first outcome that is one.
pub proof fn lemma_first_failure<A, B>(outcomes: Seq<Result<A, B>>, i: int)
    requires
        0 <= i < outcomes.len(),
        outcomes[i] is Err,
        forall|j: int| 0 <= j < i ==> (#[trigger] outcomes[j]) is Ok,
    ensures
        failures(outcomes).len() > 0,
        failures(outcomes)[0] == outcomes[i]->Err_0,
    decreases outcomes.len(),
{
    let init = outcomes.drop_last();
    if i == outcomes.len() - 1 {
        lemma_no_failure(init);
    } else {
        lemma_first_failure(init, i);
    }
}

/// Where there is a failure, the position of the first outcome that is one.
pub proof fn lemma_first_failure_position<A, B>(outcomes: Seq<Result<A, B>>) -> (i: int)
    requires
        failures(outcomes).len() > 0,
    ensures
        0 <= i < outcomes.len(),
        outcomes[i] == Err::<A, B>(failures(outcomes)[0]),
        forall|j: int| 0 <= j < i ==> (#[trigger] outcomes[j]) is Ok,
    decreases outcomes.len(),
{
    let init = outcomes.drop_last();
    if failures(init).len() > 0 {
        let i = lemma_first_failure_position(init);
        assert forall|j: int| 0 <= j < i implies (#[trigger] outcomes[j]) is Ok by {
            assert(init[j] == outcomes[j]);
        }
        assert(init[i] == outcomes[i]);
        i
    } else {
        lemma_no_failure(init);
        let i = outcomes.len() - 1;
        assert forall|j: int| 0 <= j < i implies (#[trigger] outcomes[j]) is Ok by {
            assert(init[j] == outcomes[j]);
        }
        i
    }
}

/// There is no failure exactly where every outcome is a success.
pub proof fn lemma_no_failure<A, B>(outcomes: Seq<Result<A, B>>)
    ensures
        failures(outcomes).len() == 0 <==> forall|j: int|
            0 <= j < outcomes.len() ==> (#[trigger] outcomes[j]) is Ok,
    decreases outcomes.len(),
{
    if outcomes.len() > 0 {
        let init = outcomes.drop_last();
        lemma_no_failure(init);
        if failures(outcomes).len() == 0 {
            assert forall|j: int| 0 <= j < outcomes.len() implies (#[trigger] outcomes[j])
                is Ok by {
                if j < init.len() {
                    assert(init[j] == outcomes[j]);
                }
            }
        }
        if forall|j: int| 0 <= j < outcomes.len() ==> (#[trigger] outcomes[j]) is Ok {
            assert forall|j: int| 0 <= j < init.len() implies (#[trigger] init[j]) is Ok by {
                assert(init[j] == outcomes[j]);
            }
            assert(outcomes[outcomes.len() - 1] is Ok);
        }
    }
}

/// The number of records of a run. A run that succeeds yields one record
/// for every group but those it passed over; under `Abort` it passes over
/// none, so it yields one record for every group. A run fails only under
/// `Abort`, and then with the text of the first group that has no record.
pub proof fn lemma_record_count(groups: Seq<Seq<BlockView>>, policy: MalformedPolicy)
    ensures
        match run_of(groups, policy) {
            Ok(extraction) => {
                &&& extraction.records.len() == groups.len() - extraction.skipped.len()
                &&& policy == MalformedPolicy::Abort ==> extraction.records.len() == groups.len()
            },
            Err(failure) => {
                &&& policy == MalformedPolicy::Abort
                &&& exists|i: int|
                    {
                        &&& 0 <= i < groups.len()
                        &&& #[trigger] outcome_of(groups[i]) == Err::<
                            ClassView,
                            Seq<Seq<char>>,
                        >(failure)
                        &&& forall|j: int| 0 <= j < i ==> (#[trigger] outcome_of(groups[j])) is Ok
                    }
            },
        },
{
    let outcomes = outcomes_of(groups);
    lemma_every_outcome_counted(outcomes);
    lemma_no_failure(outcomes);
    if policy == MalformedPolicy::Abort && failures(outcomes).len() > 0 {
        let i = lemma_first_failure_position(outcomes);
        assert(outcome_of(groups[i]) == outcomes[i]);
        assert forall|j: int| 0 <= j < i implies (#[trigger] outcome_of(groups[j])) is Ok by {
            assert(outcomes[j] is Ok);
        }
    }
}

/// Builds the records of `groups` in order, under `policy`.
pub fn build_records(groups: &[&[Block]], policy: MalformedPolicy) -> (r: Result<
    Extraction,
    MalformedGroup,
>)
    ensures
        run_view(r) == run_of(groups.deep_view(), policy),
{
    let ghost outcomes = outcomes_of(groups.deep_view());
    let mut records: Vec<Class> = Vec::new();
    let mut skipped: Vec<MalformedGroup> = Vec::new();
    let mut i: usize = 0;
    while i < groups.len()
        invariant
            i <= groups@.len() == outcomes.len(),
            outcomes == outcomes_of(groups.deep_view()),
            records.deep_view() == successes(outcomes.subrange(0, i as int)),
            skipped.deep_view() == failures(outcomes.subrange(0, i as int)),
            policy == MalformedPolicy::Abort ==> forall|j: int|
                0 <= j < i ==> (#[trigger] outcomes[j]) is Ok,
        decreases groups@.len() - i,
    {
        let ghost upto = outcomes.subrange(0, i + 1);
        let ghost old_records = records.deep_view();
        let ghost old_skipped = skipped.deep_view();
        proof {
            assert(upto.drop_last() =~= outcomes.subrange(0, i as int));
            assert(upto.last() == outcomes[i as int]);
            assert(groups.deep_view()[i as int] == groups@[i as int].deep_view());
        }
        match Class::new(groups[i]) {
            Ok(class) => {
                records.push(class);
                assert(records.deep_view() =~= old_records.push(class@));
            },
            Err(failure) => {
                match policy {
                    MalformedPolicy::Abort => {
                        proof {
                            lemma_first_failure(outcomes, i as int);
                        }
                        return Err(failure);
                    },
                    MalformedPolicy::Skip => {
                        skipped.push(failure);
                        assert(skipped.deep_view() =~= old_skipped.push(failure@));
                    },
                }
            },
        }
        i += 1;
    }
    proof {
        assert(outcomes.subrange(0, i as int) =~= outcomes);
        lemma_no_failure(outcomes);
    }
    Ok(Extraction { records, skipped })
}

/// Segments `blocks` into the groups of its courses and builds the records
/// of the groups, in order, under `policy`.
pub fn extract(blocks: &[Block], policy: MalformedPolicy) -> (r: Result<Extraction, MalformedGroup>)
    ensures
        run_view(r) == run_of(groups_of(blocks.deep_view()), policy),
{
    let groups = segment(blocks);
    let slice = groups.as_slice();
    assert(slice.deep_view() =~= groups.deep_view());
    build_records(slice, policy)
}

/// The blocks that the `scraper` crate finds in a page: of the first element
/// that it selects in the document `html` by the CSS selector `selector`,
/// the child elements in their order, each with its classes and the text
/// nodes below it. `None` where the selector does not parse or selects
/// nothing.
pub uninterp spec fn children_of_first_match(html: Seq<char>, selector: Seq<char>) -> Option<
    Seq<BlockView>,
>;

/// Has the `scraper` crate parse `html` and `selector`, and copies out the
/// classes and the text nodes of each child element of the first match. The
/// calls are trusted, not proved: `Selector::parse`, `Html::parse_document`,
/// `Html::select`, `ElementRef::child_elements`, `Element::classes` and
/// `ElementRef::text`. The contract claims only that the outcome depends on
/// the two texts alone, and gives it the name `children_of_first_match`.
/// It claims nothing of a selector other than `COURSE_LIST`, and nothing of
/// a page of more than `MAX_PAGE_BYTES` bytes.
///
/// The limit is there for the panics that depend on length, which were
/// looked for in `tendril`, whose buffers hold all text of the parser and of
/// the tree: the test that a slice is no longer than `u32::MAX`, the checked
/// sums of two lengths and of a length and the buffer's header, and the
/// growth of a buffer to the next power of two, which fails above 2^31
/// bytes. The count of the references to a shared buffer is checked too; it
/// is a `usize` and grows by one for each piece cut from the input, so it
/// stays far from its limit. Text is copied into a buffer once, where
/// the tokenizer gathers a name, a value or a comment and where the tree
/// joins a text node to the one before it; the longest that a byte of input
/// gets on the way is three bytes, for a NUL byte. The traversals made here
/// keep no call stack: the tree is a vector, and the iterators walk it by
/// links. Not traced were the panics by which `html5ever` asserts its own
/// invariants (the cases it calls impossible in the tokenizer and the tree
/// builder): the contract takes them for unreachable, as that crate does.
#[verifier::external_body]
fn select_children(html: &str, selector: &str) -> (r: Option<Vec<Block>>)
    requires
        html.len() <= MAX_PAGE_BYTES,
        selector@ == COURSE_LIST@,
    ensures
        r.deep_view() == children_of_first_match(html@, selector@),
{
    let selector = scraper::Selector::parse(selector).ok()?;
    let document = scraper::Html::parse_document(html);
    let container = document.select(&selector).next()?;
    let block = |e: scraper::ElementRef| Block {
        classes: e.value().classes().map(str::to_owned).collect(),
        fragments: e.text().map(str::to_owned).collect(),
    };
    Some(container.child_elements().map(block).collect())
}

/// Extracts the records from the blocks of a course list, where the page
/// had one.
pub fn list_classes(blocks: Option<Vec<Block>>, policy: MalformedPolicy) -> (r: Result<
    Extraction,
    CatalogError,
>)
    ensures
        listing_view(r) == listing_of(blocks.deep_view(), policy),
{
    match blocks {
        None => Err(CatalogError::NoCourseList),
        Some(blocks) => {
            let slice = blocks.as_slice();
            assert(slice.deep_view() =~= blocks.deep_view());
            match extract(slice, policy) {
                Ok(extraction) => Ok(extraction),
                Err(failure) => Err(CatalogError::Malformed(failure)),
            }
        },
    }
}

/// Extracts the course records from the text of a catalog page.
///
/// The page's course list is the first element that `div.courselist`
/// selects; its child elements are the blocks. A page of more than
/// `MAX_PAGE_BYTES` bytes is not parsed: the result is `PageTooLong`. Without
/// a course list the result is `NoCourseList`. Otherwise it is what
/// `extract` gives for the blocks.
pub fn get_class_list(html: &str, policy: MalformedPolicy) -> (r: Result<Extraction, CatalogError>)
    ensures
        listing_view(r) == if html.len() > MAX_PAGE_BYTES {
            Err(CatalogErrorView::PageTooLong)
        } else {
            listing_of(children_of_first_match(html@, COURSE_LIST@), policy)
        },
{
    if html.len() > MAX_PAGE_BYTES {
        return Err(CatalogError::PageTooLong);
    }
    list_classes(select_children(html, COURSE_LIST), policy)
}

} // verus!
