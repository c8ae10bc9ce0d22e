//! Completion candidates and the collapsing of repeated ones.

use vstd::prelude::*;

verus! {

/// A range of the line buffer, in bytes: `start` up to `end`.
#[derive(Clone, Copy, Debug, PartialEq, Eq, Structural)]
pub struct Span {
    pub start: usize,
    pub end: usize,
}

/// One completion candidate.
#[derive(Clone, Debug, PartialEq, Eq)]
pub struct Suggestion {
    /// The text that replaces the span.
    pub value: String,
    pub description: Option<String>,
    /// The part of the line that the value replaces.
    pub span: Span,
    /// Whether a space is to follow the value once it is accepted.
    pub append_whitespace: bool,
}

/// Model of a [`Suggestion`].
pub struct SuggestionView {
    pub value: Seq<char>,
    pub description: Option<Seq<char>>,
    pub span: Span,
    pub append_whitespace: bool,
}

impl View for Suggestion {
    type V = SuggestionView;

    open spec fn view(&self) -> SuggestionView {
        SuggestionView {
            value: self.value@,
            description: match self.description {
                Some(d) => Some(d@),
                None => None,
            },
            span: self.span,
            append_whitespace: self.append_whitespace,
        }
    }
}

/// Models of a list of suggestions, in order.
pub open spec fn suggestion_views(list: Seq<Suggestion>) -> Seq<SuggestionView> {
    list.map_values(|s: Suggestion| s@)
}

/// The candidate that offers `value` for `span`, described by `description`.
pub open spec fn candidate(
    value: Seq<char>,
    description: Option<Seq<char>>,
    span: Span,
) -> SuggestionView {
    SuggestionView { value, description, span, append_whitespace: true }
}

/// Two candidates count as the same one when they put the same text in the
/// same place, whatever their descriptions say.
pub open spec fn same_target(a: SuggestionView, b: SuggestionView) -> bool {
    a.value == b.value && a.span == b.span
}

/// Some candidate of `list` has the target of `item`.
pub open spec fn targets(list: Seq<SuggestionView>, item: SuggestionView) -> bool {
    exists|j: int| 0 <= j < list.len() && same_target(#[trigger] list[j], item)
}

/// `list` with every candidate dropped whose target an earlier one already
/// has. The survivors keep their order.
pub open spec fn collapse(list: Seq<SuggestionView>) -> Seq<SuggestionView>
    decreases list.len(),
{
    if list.len() == 0 {
        Seq::empty()
    } else if targets(list.drop_last(), list.last()) {
        collapse(list.drop_last())
    } else {
        collapse(list.drop_last()).push(list.last())
    }
}

/// No two candidates of `list` have the same target.
pub open spec fn distinct_targets(list: Seq<SuggestionView>) -> bool {
    forall|i: int, j: int|
        0 <= i < j < list.len() ==> !same_target(#[trigger] list[i], #[trigger] list[j])
}

/// Collapsing keeps exactly the targets of the list, each once, and only
/// candidates that the list holds.
pub proof fn lemma_collapse(list: Seq<SuggestionView>)
    ensures
        distinct_targets(collapse(list)),
        collapse(list).len() <= list.len(),
        forall|item: SuggestionView| targets(collapse(list), item) <==> targets(list, item),
        forall|i: int|
            0 <= i < collapse(list).len() ==> list.contains(#[trigger] collapse(list)[i]),
    decreases list.len(),
{
    if list.len() > 0 {
        let init = list.drop_last();
        let last = list.last();
        lemma_collapse(init);
        let kept = collapse(init);
        let out = collapse(list);
        assert forall|item: SuggestionView| targets(out, item) <==> targets(list, item) by {
            if targets(out, item) {
                let j = choose|j: int| 0 <= j < out.len() && same_target(out[j], item);
                if j < kept.len() {
                    assert(same_target(kept[j], item));
                    assert(targets(init, item));
                    let k = choose|k: int| 0 <= k < init.len() && same_target(init[k], item);
                    assert(same_target(list[k], item));
                } else {
                    assert(same_target(list[list.len() - 1], item));
                }
            }
            if targets(list, item) {
                let k = choose|k: int| 0 <= k < list.len() && same_target(list[k], item);
                if k < init.len() {
                    assert(init[k] == list[k]);
                    assert(targets(init, item));
                    assert(targets(kept, item));
                    let j = choose|j: int| 0 <= j < kept.len() && same_target(kept[j], item);
                    assert(same_target(out[j], item));
                } else if targets(init, last) {
                    assert(targets(kept, last));
                    let j = choose|j: int| 0 <= j < kept.len() && same_target(kept[j], last);
                    assert(same_target(out[j], item));
                } else {
                    assert(same_target(out[out.len() - 1], item));
                }
            }
        }
        assert forall|i: int| 0 <= i < out.len() implies list.contains(#[trigger] out[i]) by {
            if i < kept.len() {
                assert(init.contains(kept[i]));
                let k = choose|k: int| 0 <= k < init.len() && init[k] == kept[i];
                assert(list[k] == out[i]);
            } else {
                assert(list[list.len() - 1] == out[i]);
            }
        }
        assert forall|i: int, j: int| 0 <= i < j < out.len() implies !same_target(
            #[trigger] out[i],
            #[trigger] out[j],
        ) by {
            if j == kept.len() {
                if same_target(kept[i], last) {
                    assert(targets(kept, last));
                }
            }
        }
    }
}

/// A list without repeated targets collapses to itself.
pub proof fn lemma_collapse_distinct(list: Seq<SuggestionView>)
    requires
        distinct_targets(list),
    ensures
        collapse(list) == list,
    decreases list.len(),
{
    if list.len() > 0 {
        let init = list.drop_last();
        lemma_collapse_distinct(init);
        if targets(init, list.last()) {
            let j = choose|j: int| 0 <= j < init.len() && same_target(init[j], list.last());
            assert(same_target(list[j], list[list.len() - 1]));
        }
        assert(init.push(list.last()) =~= list);
    }
}

/// Copies an optional text.
pub fn copy_text(text: &Option<String>) -> (r: Option<String>)
    ensures
        r == *text,
{
    match text {
        Some(t) => Some(t.clone()),
        None => None,
    }
}

impl Suggestion {
    /// Whether `self` and `other` put the same text in the same place.
    pub fn same_target(&self, other: &Suggestion) -> (r: bool)
        ensures
            r == same_target(self@, other@),
    {
        self.value == other.value && self.span.start == other.span.start && self.span.end
            == other.span.end
    }
}

/// Whether one of the first `end` entries of `list` has the target of `item`.
pub fn holds_target(list: &Vec<Suggestion>, end: usize, item: &Suggestion) -> (r: bool)
    requires
        end <= list@.len(),
    ensures
        r == targets(suggestion_views(list@.take(end as int)), item@),
{
    let ghost head = suggestion_views(list@.take(end as int));
    let mut j: usize = 0;
    while j < end
        invariant
            j <= end <= list@.len(),
            head == suggestion_views(list@.take(end as int)),
            forall|k: int| 0 <= k < j ==> !same_target(#[trigger] head[k], item@),
        decreases end - j,
    {
        if list[j].same_target(item) {
            assert(head[j as int] == list@[j as int]@);
            return true;
        }
        assert(head[j as int] == list@[j as int]@);
        j += 1;
    }
    false
}

/// Drops every suggestion whose target an earlier one already has, keeping
/// the order of the rest.
pub fn dedup(list: Vec<Suggestion>) -> (r: Vec<Suggestion>)
    ensures
        suggestion_views(r@) == collapse(suggestion_views(list@)),
        distinct_targets(suggestion_views(r@)),
{
    let mut out: Vec<Suggestion> = Vec::new();
    let mut i: usize = 0;
    assert(suggestion_views(list@.take(0)) =~= Seq::empty());
    while i < list.len()
        invariant
            i <= list@.len(),
            suggestion_views(out@) == collapse(suggestion_views(list@.take(i as int))),
        decreases list@.len() - i,
    {
        let ghost head = suggestion_views(list@.take(i as int));
        let ghost next = suggestion_views(list@.take(i + 1));
        assert(next.drop_last() =~= head);
        assert(next.last() == list@[i as int]@);
        let repeated = holds_target(&list, i, &list[i]);
        if !repeated {
            let item = Suggestion {
                value: list[i].value.clone(),
                description: copy_text(&list[i].description),
                span: list[i].span,
                append_whitespace: list[i].append_whitespace,
            };
            assert(item@ == list@[i as int]@);
            let ghost before = out@;
            out.push(item);
            assert(suggestion_views(out@) =~= suggestion_views(before).push(item@));
        }
        i += 1;
    }
    assert(list@.take(list@.len() as int) =~= list@);
    proof {
        lemma_collapse(suggestion_views(list@));
    }
    out
}

} // verus!
