//! The filters of the search panel: which records a search shows, in what
//! order, and which store query a change of the filters asks for.
use vstd::prelude::*;
use crate::models::{Record, RecordType};
use crate::name_set::{all_listed, any_listed, listed_in, toggled, NameSet};
use crate::strings::{chars_of, string_of, string_views, text_equals, trim, trim_chars};

verus! {

/// A single tag or person picked while browsing.
#[derive(Clone, Debug, PartialEq, Eq)]
pub enum BrowseFilter {
    Tag(String),
    Person(String),
}

/// A browse filter with its name as a character sequence.
pub enum BrowseView {
    Tag(Seq<char>),
    Person(Seq<char>),
}

impl View for BrowseFilter {
    type V = BrowseView;

    open spec fn view(&self) -> BrowseView {
        match self {
            BrowseFilter::Tag(t) => BrowseView::Tag(t@),
            BrowseFilter::Person(p) => BrowseView::Person(p@),
        }
    }
}

/// Whether two browse filters pick the same kind and the same name.
pub open spec fn same_browse_filter(a: BrowseFilter, b: BrowseFilter) -> bool {
    a@ == b@
}

/// The view of an optional browse filter.
pub open spec fn browse_view(o: Option<BrowseFilter>) -> Option<BrowseView> {
    match o {
        Some(f) => Some(f@),
        None => None,
    }
}

/// The browse filter after clicking `clicked` while `current` is in force.
pub open spec fn after_click(current: Option<BrowseView>, clicked: BrowseView) -> Option<BrowseView> {
    if current == Some(clicked) {
        None
    } else {
        Some(clicked)
    }
}

/// How several selected tags and persons combine.
#[derive(Clone, Copy, PartialEq, Eq, Debug, Structural)]
pub enum AdvancedFilterMode {
    And,
    Or,
}

/// The mode other than `m`.
pub open spec fn other_mode(m: AdvancedFilterMode) -> AdvancedFilterMode {
    match m {
        AdvancedFilterMode::And => AdvancedFilterMode::Or,
        AdvancedFilterMode::Or => AdvancedFilterMode::And,
    }
}

impl AdvancedFilterMode {
    /// `AND` or `OR`.
    pub fn label(&self) -> (r: &'static str)
        ensures
            r@ == match *self {
                AdvancedFilterMode::And => "AND"@,
                AdvancedFilterMode::Or => "OR"@,
            },
    {
        match self {
            AdvancedFilterMode::And => "AND",
            AdvancedFilterMode::Or => "OR",
        }
    }

    /// The other mode.
    pub fn toggle(&self) -> (r: Self)
        ensures
            r == other_mode(*self),
    {
        match self {
            AdvancedFilterMode::And => AdvancedFilterMode::Or,
            AdvancedFilterMode::Or => AdvancedFilterMode::And,
        }
    }
}

/// The record kinds a search can be narrowed to.
#[derive(Clone, Copy, PartialEq, Eq, Debug, Structural)]
pub enum SearchFilterType {
    All,
    Task,
    Note,
    Idea,
}

/// Whether a record of kind `t` passes the kind filter `f`.
pub open spec fn type_matches(f: SearchFilterType, t: RecordType) -> bool {
    match f {
        SearchFilterType::All => true,
        SearchFilterType::Task => t == RecordType::Task,
        SearchFilterType::Note => t == RecordType::Note,
        SearchFilterType::Idea => t == RecordType::Idea,
    }
}

impl SearchFilterType {
    /// The label of the kind filter.
    pub fn label(&self) -> (r: &'static str)
        ensures
            r@ == match *self {
                SearchFilterType::All => "全部"@,
                SearchFilterType::Task => "任务"@,
                SearchFilterType::Note => "记录"@,
                SearchFilterType::Idea => "想法"@,
            },
    {
        match self {
            SearchFilterType::All => "全部",
            SearchFilterType::Task => "任务",
            SearchFilterType::Note => "记录",
            SearchFilterType::Idea => "想法",
        }
    }

    /// Whether a record of kind `record_type` passes this filter.
    pub fn matches(&self, record_type: &RecordType) -> (r: bool)
        ensures
            r == type_matches(*self, *record_type),
    {
        match self {
            SearchFilterType::All => true,
            SearchFilterType::Task => matches!(record_type, RecordType::Task),
            SearchFilterType::Note => matches!(record_type, RecordType::Note),
            SearchFilterType::Idea => matches!(record_type, RecordType::Idea),
        }
    }
}

/// Which detail sidebar opens for a result.
#[derive(Clone, Copy, PartialEq, Eq, Debug, Structural)]
pub enum SearchDetailTarget {
    Task,
    Record,
}

/// Clicking the current browse filter clears it; clicking another one
/// replaces it.
pub fn next_browse_filter(current_filter: Option<&BrowseFilter>, clicked_filter: BrowseFilter) -> (r:
    Option<BrowseFilter>)
    ensures
        r == match current_filter {
            Some(f) => if same_browse_filter(*f, clicked_filter) {
                None
            } else {
                Some(clicked_filter)
            },
            None => Some(clicked_filter),
        },
{
    match current_filter {
        Some(filter) => {
            let same = match (filter, &clicked_filter) {
                (BrowseFilter::Tag(x), BrowseFilter::Tag(y)) => text_equals(x.as_str(), y.as_str()),
                (BrowseFilter::Person(x), BrowseFilter::Person(y)) => text_equals(
                    x.as_str(),
                    y.as_str(),
                ),
                _ => false,
            };
            if same {
                None
            } else {
                Some(clicked_filter)
            }
        },
        None => Some(clicked_filter),
    }
}

/// A completed task shows only when completed tasks are shown; every other
/// record always shows.
pub open spec fn completion_visible(show_completed_tasks: bool, record: Record) -> bool {
    record.record_type != RecordType::Task || record.completed_at.is_none() || show_completed_tasks
}

/// Whether `record` passes the completed-task switch.
pub fn matches_completion_visibility(show_completed_tasks: bool, record: &Record) -> (r: bool)
    ensures
        r == completion_visible(show_completed_tasks, *record),
{
    !matches!(record.record_type, RecordType::Task) || record.completed_at.is_none()
        || show_completed_tasks
}

/// Whether `record` carries the tag or person of `filter`.
pub open spec fn browse_match(record: Record, filter: BrowseFilter) -> bool {
    match filter {
        BrowseFilter::Tag(t) => string_views(record.tags@).contains(t@),
        BrowseFilter::Person(p) => string_views(record.persons@).contains(p@),
    }
}

/// Whether `record` carries the tag or person of `browse_filter`.
pub fn matches_single_browse_filter(record: &Record, browse_filter: &BrowseFilter) -> (r: bool)
    ensures
        r == browse_match(*record, *browse_filter),
{
    match browse_filter {
        BrowseFilter::Tag(tag) => listed_in(tag.as_str(), record.tags.as_slice()),
        BrowseFilter::Person(person) => listed_in(person.as_str(), record.persons.as_slice()),
    }
}

/// With nothing selected every record passes; in AND mode a record must
/// carry every selected tag and person, in OR mode at least one of them.
pub open spec fn advanced_match(
    record: Record,
    tags: Set<Seq<char>>,
    persons: Set<Seq<char>>,
    mode: AdvancedFilterMode,
) -> bool {
    let has_tag = |x: Seq<char>| string_views(record.tags@).contains(x);
    let has_person = |x: Seq<char>| string_views(record.persons@).contains(x);
    if tags.is_empty() && persons.is_empty() {
        true
    } else {
        match mode {
            AdvancedFilterMode::And => (forall|x: Seq<char>| #[trigger]
                tags.contains(x) ==> has_tag(x)) && (forall|x: Seq<char>| #[trigger]
                persons.contains(x) ==> has_person(x)),
            AdvancedFilterMode::Or => (exists|x: Seq<char>| #[trigger]
                tags.contains(x) && has_tag(x)) || (exists|x: Seq<char>| #[trigger]
                persons.contains(x) && has_person(x)),
        }
    }
}

/// Whether `record` passes the selected tags and persons in `filter_mode`.
pub fn matches_advanced_filter(
    record: &Record,
    selected_tags: &NameSet,
    selected_persons: &NameSet,
    filter_mode: AdvancedFilterMode,
) -> (r: bool)
    ensures
        r == advanced_match(*record, selected_tags.members(), selected_persons.members(), filter_mode),
{
    let ghost ts = selected_tags.members();
    let ghost ps = selected_persons.members();
    if selected_tags.is_empty() && selected_persons.is_empty() {
        proof {
            assert(ts =~= Set::<Seq<char>>::empty());
            assert(ps =~= Set::<Seq<char>>::empty());
        }
        return true;
    }
    proof {
        if ts.is_empty() && ps.is_empty() {
            if selected_tags@.len() > 0 {
                assert(ts.contains(selected_tags@[0]));
            } else {
                assert(ps.contains(selected_persons@[0]));
            }
        }
    }
    let tags = selected_tags.names();
    let persons = selected_persons.names();
    proof {
        assert forall|x: Seq<char>| ts.contains(x) <==> exists|i: int| 0 <= i < tags@.len() && #[trigger] tags@[i]@ == x by {
            if ts.contains(x) {
                let i = choose|i: int| 0 <= i < selected_tags@.len() && selected_tags@[i] == x;
                assert(string_views(tags@)[i] == tags@[i]@);
            }
            if exists|i: int| 0 <= i < tags@.len() && #[trigger] tags@[i]@ == x {
                let i = choose|i: int| 0 <= i < tags@.len() && #[trigger] tags@[i]@ == x;
                assert(string_views(tags@)[i] == x);
            }
        }
        assert forall|x: Seq<char>| ps.contains(x) <==> exists|i: int| 0 <= i < persons@.len() && #[trigger] persons@[i]@ == x by {
            if ps.contains(x) {
                let i = choose|i: int| 0 <= i < selected_persons@.len() && selected_persons@[i] == x;
                assert(string_views(persons@)[i] == persons@[i]@);
            }
            if exists|i: int| 0 <= i < persons@.len() && #[trigger] persons@[i]@ == x {
                let i = choose|i: int| 0 <= i < persons@.len() && #[trigger] persons@[i]@ == x;
                assert(string_views(persons@)[i] == x);
            }
        }
    }
    match filter_mode {
        AdvancedFilterMode::And => {
            let a = all_listed(&tags, record.tags.as_slice());
            let b = all_listed(&persons, record.persons.as_slice());
            proof {
                if !a {
                    let i = choose|i: int| 0 <= i < tags@.len() && !string_views(record.tags@).contains(#[trigger] tags@[i]@);
                    assert(ts.contains(tags@[i]@));
                }
                if !b {
                    let i = choose|i: int| 0 <= i < persons@.len() && !string_views(record.persons@).contains(#[trigger] persons@[i]@);
                    assert(ps.contains(persons@[i]@));
                }
            }
            a && b
        },
        AdvancedFilterMode::Or => {
            let a = any_listed(&tags, record.tags.as_slice());
            let b = any_listed(&persons, record.persons.as_slice());
            proof {
                if a {
                    let i = choose|i: int| 0 <= i < tags@.len() && string_views(record.tags@).contains(#[trigger] tags@[i]@);
                    assert(ts.contains(tags@[i]@));
                }
                if b {
                    let i = choose|i: int| 0 <= i < persons@.len() && string_views(record.persons@).contains(#[trigger] persons@[i]@);
                    assert(ps.contains(persons@[i]@));
                }
            }
            a || b
        },
    }
}

/// Turning the advanced filter on carries the browse filter over into the
/// selections and keeps the mode; turning it off clears the selections and
/// resets the mode to AND. Either way the browse filter is dropped.
pub fn apply_advanced_filter_toggle(
    browse_filter: Option<&BrowseFilter>,
    enabled: bool,
    selected_tags: &NameSet,
    selected_persons: &NameSet,
    filter_mode: AdvancedFilterMode,
) -> (r: (Option<BrowseFilter>, NameSet, NameSet, AdvancedFilterMode))
    requires
        selected_tags.wf(),
        selected_persons.wf(),
    ensures
        r.0.is_none(),
        r.1.wf(),
        r.2.wf(),
        enabled ==> r.1.members() == match browse_filter {
            Some(BrowseFilter::Tag(t)) => selected_tags.members().insert(t@),
            _ => selected_tags.members(),
        },
        enabled ==> r.2.members() == match browse_filter {
            Some(BrowseFilter::Person(p)) => selected_persons.members().insert(p@),
            _ => selected_persons.members(),
        },
        enabled ==> r.3 == filter_mode,
        !enabled ==> r.1@.len() == 0 && r.2@.len() == 0 && r.3 == AdvancedFilterMode::And,
{
    if enabled {
        let mut next_tags = selected_tags.clone();
        let mut next_persons = selected_persons.clone();
        match browse_filter {
            Some(BrowseFilter::Tag(tag)) => {
                next_tags.insert(tag.as_str());
            },
            Some(BrowseFilter::Person(person)) => {
                next_persons.insert(person.as_str());
            },
            None => {},
        }
        (None, next_tags, next_persons, filter_mode)
    } else {
        (None, NameSet::new(), NameSet::new(), AdvancedFilterMode::And)
    }
}

/// Tasks open in the task sidebar, everything else in the record sidebar.
pub fn detail_target_for(record: &Record) -> (r: SearchDetailTarget)
    ensures
        r == if record.record_type == RecordType::Task {
            SearchDetailTarget::Task
        } else {
            SearchDetailTarget::Record
        },
{
    match record.record_type {
        RecordType::Task => SearchDetailTarget::Task,
        RecordType::Note | RecordType::Idea | RecordType::Event => SearchDetailTarget::Record,
    }
}

/// The kind label shown on a search result.
pub fn get_record_type_label(record: &Record) -> (r: &'static str)
    ensures
        r@ == match record.record_type {
            RecordType::Task => "任务"@,
            RecordType::Event => "事件"@,
            RecordType::Idea => "想法"@,
            RecordType::Note => "笔记"@,
        },
{
    match record.record_type {
        RecordType::Task => "任务",
        RecordType::Event => "事件",
        RecordType::Idea => "想法",
        RecordType::Note => "笔记",
    }
}

/// `a` is newer than `b`: created later, then updated later, then the larger
/// id, compared in that order.
pub open spec fn newer(a: Record, b: Record) -> bool {
    a.created_at > b.created_at || (a.created_at == b.created_at && (a.updated_at > b.updated_at
        || (a.updated_at == b.updated_at && a.id > b.id)))
}

/// `x` put into the newest-first sequence `s`: after every record that is
/// not older than it, before the first older one.
pub open spec fn place_newest_first(s: Seq<Record>, x: Record) -> Seq<Record>
    decreases s.len(),
{
    if s.len() == 0 {
        seq![x]
    } else if newer(x, s[0]) {
        seq![x] + s
    } else {
        seq![s[0]] + place_newest_first(s.drop_first(), x)
    }
}

/// `s` sorted newest first, records that tie keeping their order: what a
/// stable sort by descending (created, updated, id) gives.
pub open spec fn newest_first(s: Seq<Record>) -> Seq<Record>
    decreases s.len(),
{
    if s.len() == 0 {
        s
    } else {
        place_newest_first(newest_first(s.drop_last()), s.last())
    }
}

/// Every record comes no later than the ones after it: no record is newer
/// than one before it.
pub open spec fn is_newest_first(s: Seq<Record>) -> bool {
    forall|i: int, j: int| 0 <= i < j < s.len() ==> !newer(#[trigger] s[j], #[trigger] s[i])
}

/// Placing `x` at the first index whose record is older than `x`.
proof fn lemma_place_is_insert(s: Seq<Record>, x: Record, j: int)
    requires
        0 <= j <= s.len(),
        forall|k: int| 0 <= k < j ==> !newer(x, #[trigger] s[k]),
        j < s.len() ==> newer(x, s[j]),
    ensures
        place_newest_first(s, x) == s.insert(j, x),
    decreases s.len(),
{
    if s.len() == 0 {
        assert(s.insert(j, x) =~= seq![x]);
    } else if j == 0 {
        assert(s.insert(j, x) =~= seq![x] + s);
    } else {
        let t = s.drop_first();
        assert forall|k: int| 0 <= k < j - 1 implies !newer(x, #[trigger] t[k]) by {
            assert(t[k] == s[k + 1]);
        }
        lemma_place_is_insert(t, x, j - 1);
        assert(s.insert(j, x) =~= seq![s[0]] + t.insert(j - 1, x));
    }
}

/// The index of the first record of `s` that `x` is newer than, or the
/// length of `s` when there is none.
pub open spec fn first_older(s: Seq<Record>, x: Record) -> int
    decreases s.len(),
{
    if s.len() == 0 {
        0
    } else if newer(x, s[0]) {
        0
    } else {
        1 + first_older(s.drop_first(), x)
    }
}

/// Placing `x` inserts it at `first_older(s, x)`.
proof fn lemma_place_at_first_older(s: Seq<Record>, x: Record)
    ensures
        0 <= first_older(s, x) <= s.len(),
        forall|k: int| 0 <= k < first_older(s, x) ==> !newer(x, #[trigger] s[k]),
        first_older(s, x) < s.len() ==> newer(x, s[first_older(s, x)]),
        place_newest_first(s, x) == s.insert(first_older(s, x), x),
    decreases s.len(),
{
    if s.len() > 0 && !newer(x, s[0]) {
        let t = s.drop_first();
        lemma_place_at_first_older(t, x);
        assert forall|k: int| 0 <= k < first_older(s, x) implies !newer(x, #[trigger] s[k]) by {
            if k > 0 {
                assert(s[k] == t[k - 1]);
            }
        }
    }
    lemma_place_is_insert(s, x, first_older(s, x));
}

/// Placing a record into a newest-first sequence keeps it newest first and
/// adds exactly that record.
pub proof fn lemma_place_keeps_order(s: Seq<Record>, x: Record)
    requires
        is_newest_first(s),
    ensures
        is_newest_first(place_newest_first(s, x)),
        place_newest_first(s, x).to_multiset() == s.to_multiset().insert(x),
{
    lemma_place_at_first_older(s, x);
    let j = first_older(s, x);
    let t = s.insert(j, x);
    assert forall|p: int, q: int| 0 <= p < q < t.len() implies !newer(#[trigger] t[q], #[trigger] t[p]) by {
        if q < j {
            assert(!newer(s[q], s[p]));
        } else if q == j {
            assert(!newer(x, s[p]));
        } else if p < j {
            assert(!newer(s[q - 1], s[p]));
        } else if p == j {
            if q - 1 > j {
                assert(!newer(s[q - 1], s[j]));
            }
        } else {
            assert(!newer(s[q - 1], s[p - 1]));
        }
    }
    vstd::seq_lib::to_multiset_insert(s, j, x);
}

/// Sorting newest first gives a newest-first sequence of the same records.
pub proof fn lemma_newest_first_sorts(s: Seq<Record>)
    ensures
        is_newest_first(newest_first(s)),
        newest_first(s).to_multiset() == s.to_multiset(),
    decreases s.len(),
{
    if s.len() > 0 {
        let init = s.drop_last();
        lemma_newest_first_sorts(init);
        lemma_place_keeps_order(newest_first(init), s.last());
        assert(s =~= init.push(s.last()));
        init.to_multiset_ensures();
    }
}

/// Whether `a` is newer than `b`.
fn is_newer(a: &Record, b: &Record) -> (r: bool)
    ensures
        r == newer(*a, *b),
{
    a.created_at > b.created_at || (a.created_at == b.created_at && (a.updated_at > b.updated_at
        || (a.updated_at == b.updated_at && a.id > b.id)))
}

/// Sorts the results newest first (created, then updated, then id, each
/// descending); records that tie keep their order.
pub fn sort_results_by_created_at_desc(results: &mut Vec<Record>)
    ensures
        final(results)@ == newest_first(old(results)@),
        is_newest_first(final(results)@),
        final(results)@.to_multiset() == old(results)@.to_multiset(),
{
    proof {
        lemma_newest_first_sorts(results@);
    }
    let ghost orig = results@;
    let total = results.len();
    let mut pending: Vec<Record> = Vec::new();
    std::mem::swap(&mut pending, results);
    let mut sorted: Vec<Record> = Vec::new();
    let mut done: usize = 0;
    proof {
        assert(orig.take(0) =~= Seq::<Record>::empty());
        assert(orig.skip(0) =~= orig);
    }
    while pending.len() > 0
        invariant
            0 <= done <= orig.len(),
            orig.len() == total,
            pending@ == orig.skip(done as int),
            sorted@ == newest_first(orig.take(done as int)),
        decreases pending.len(),
    {
        let x = pending.remove(0);
        proof {
            assert(x == orig[done as int]);
            assert(pending@ =~= orig.skip(done + 1));
        }
        let mut j: usize = 0;
        while j < sorted.len() && !is_newer(&x, &sorted[j])
            invariant
                0 <= j <= sorted.len(),
                forall|k: int| 0 <= k < j ==> !newer(x, #[trigger] sorted@[k]),
            decreases sorted.len() - j,
        {
            j += 1;
        }
        proof {
            let prefix = orig.take(done + 1);
            assert(prefix.drop_last() =~= orig.take(done as int));
            assert(prefix.last() == x);
            lemma_place_is_insert(sorted@, x, j as int);
        }
        sorted.insert(j, x);
        done += 1;
    }
    proof {
        assert(orig.take(done as int) =~= orig);
    }
    *results = sorted;
}

/// Whether a record has an id other than `id`.
pub open spec fn other_than(id: u128) -> spec_fn(Record) -> bool {
    |x: Record| x.id != id
}

/// Removes every result with id `record_id`; true when one was removed.
pub fn remove_record_from_results(results: &mut Vec<Record>, record_id: u128) -> (r: bool)
    ensures
        final(results)@ == old(results)@.filter(other_than(record_id)),
        forall|k: int| 0 <= k < final(results)@.len() ==> (#[trigger] final(results)@[k]).id != record_id,
        r == (final(results)@.len() != old(results)@.len()),
{
    proof {
        assert forall|k: int| 0 <= k < results@.filter(other_than(record_id)).len() implies (
        #[trigger] results@.filter(other_than(record_id))[k]).id != record_id by {
            results@.lemma_filter_pred(other_than(record_id), k);
        }
    }
    let ghost orig = results@;
    let original_len = results.len();
    let mut i: usize = 0;
    let ghost mut scanned: int = 0;
    proof {
        assert(orig.take(0).filter(other_than(record_id)) =~= Seq::<Record>::empty());
        assert(orig.skip(0) =~= orig);
    }
    while i < results.len()
        invariant
            0 <= i <= results.len(),
            0 <= scanned <= orig.len(),
            original_len == orig.len(),
            results@.take(i as int) == orig.take(scanned).filter(other_than(record_id)),
            results@.skip(i as int) == orig.skip(scanned),
            results@.len() - i == orig.len() - scanned,
        decreases results.len() - i,
    {
        let ghost before = results@;
        proof {
            assert(orig[scanned] == before[i as int]) by {
                assert(before.skip(i as int)[0] == orig.skip(scanned)[0]);
            }
            let t = orig.take(scanned + 1);
            assert(t.drop_last() =~= orig.take(scanned));
            assert(t =~= orig.take(scanned).push(orig[scanned]));
            orig.take(scanned).lemma_filter_push(orig[scanned], other_than(record_id));
        }
        if results[i].id == record_id {
            results.remove(i);
            proof {
                assert(orig[scanned].id == record_id);
                assert(!other_than(record_id)(orig[scanned]));
                assert(orig.take(scanned + 1).filter(other_than(record_id)) == orig.take(
                    scanned,
                ).filter(other_than(record_id)));
                assert(results@.take(i as int) =~= before.take(i as int));
                assert(results@.skip(i as int) =~= before.skip(i + 1));
                assert(orig.skip(scanned + 1) =~= orig.skip(scanned).drop_first());
                assert(before.skip(i + 1) =~= before.skip(i as int).drop_first());
            }
        } else {
            proof {
                assert(other_than(record_id)(orig[scanned]));
                assert(orig.take(scanned + 1).filter(other_than(record_id)) == orig.take(
                    scanned,
                ).filter(other_than(record_id)).push(orig[scanned]));
                assert(before.take(i + 1) =~= before.take(i as int).push(before[i as int]));
                assert(orig.skip(scanned + 1) =~= orig.skip(scanned).drop_first());
                assert(before.skip(i + 1) =~= before.skip(i as int).drop_first());
            }
            i += 1;
        }
        proof {
            scanned = scanned + 1;
        }
    }
    proof {
        assert(results@.take(i as int) =~= results@);
        assert(orig.take(scanned) =~= orig);
    }
    results.len() != original_len
}

/// Where the search panel's results come from after a change of its filters.
#[derive(Debug, PartialEq, Eq)]
pub enum ResultsSource {
    /// Nothing to look for: the results are cleared.
    Nothing,
    /// A text search for the trimmed query.
    Search(String),
    /// Every record, to be filtered by the selected tags and persons.
    AllRecords,
    /// The records with this tag.
    Tag(String),
    /// The records with this person.
    Person(String),
}

/// A copy of a browse filter.
fn copy_browse_filter(f: &BrowseFilter) -> (r: BrowseFilter)
    ensures
        r == *f,
{
    match f {
        BrowseFilter::Tag(t) => BrowseFilter::Tag(t.clone()),
        BrowseFilter::Person(p) => BrowseFilter::Person(p.clone()),
    }
}

/// The filters of the search panel: the query, the kind filter, the
/// completed-task switch, and either one browse filter or, in advanced mode,
/// selected tags and persons combined with AND or OR.
#[derive(Debug)]
pub struct SearchFilters {
    pub query: String,
    pub filter_type: SearchFilterType,
    pub show_completed_tasks: bool,
    pub browse_filter: Option<BrowseFilter>,
    pub advanced_filter_enabled: bool,
    pub selected_tags: NameSet,
    pub selected_persons: NameSet,
    pub filter_mode: AdvancedFilterMode,
}

/// Whether the chip of tag `tag` shows as picked: in advanced mode when the
/// tag is selected, else when it is the browse filter.
pub open spec fn tag_chip_selected(f: SearchFilters, tag: Seq<char>) -> bool {
    if f.advanced_filter_enabled {
        f.selected_tags.members().contains(tag)
    } else {
        browse_view(f.browse_filter) == Some(BrowseView::Tag(tag))
    }
}

/// Whether the chip of person `person` shows as picked: in advanced mode
/// when the person is selected, else when they are the browse filter.
pub open spec fn person_chip_selected(f: SearchFilters, person: Seq<char>) -> bool {
    if f.advanced_filter_enabled {
        f.selected_persons.members().contains(person)
    } else {
        browse_view(f.browse_filter) == Some(BrowseView::Person(person))
    }
}

/// Whether the filters `f` show `record`.
pub open spec fn shows(f: SearchFilters, record: Record) -> bool {
    &&& type_matches(f.filter_type, record.record_type)
    &&& completion_visible(f.show_completed_tasks, record)
    &&& if f.advanced_filter_enabled {
        advanced_match(record, f.selected_tags.members(), f.selected_persons.members(), f.filter_mode)
    } else {
        match f.browse_filter {
            Some(b) => browse_match(record, b),
            None => true,
        }
    }
}

/// The records the filters `f` show, as a filter predicate.
pub open spec fn shown_by(f: SearchFilters) -> spec_fn(Record) -> bool {
    |r: Record| shows(f, r)
}

/// A results source with its names as character sequences.
pub enum SourceView {
    Nothing,
    Search(Seq<char>),
    AllRecords,
    Tag(Seq<char>),
    Person(Seq<char>),
}

impl View for ResultsSource {
    type V = SourceView;

    open spec fn view(&self) -> SourceView {
        match self {
            ResultsSource::Nothing => SourceView::Nothing,
            ResultsSource::Search(q) => SourceView::Search(q@),
            ResultsSource::AllRecords => SourceView::AllRecords,
            ResultsSource::Tag(t) => SourceView::Tag(t@),
            ResultsSource::Person(p) => SourceView::Person(p@),
        }
    }
}

/// Where the results come from for the filters `f`.
pub open spec fn results_source_of(f: SearchFilters) -> SourceView {
    let q = trim(f.query@);
    if q.len() == 0 && !f.advanced_filter_enabled && f.browse_filter.is_none() {
        SourceView::Nothing
    } else if q.len() == 0 && f.advanced_filter_enabled && f.selected_tags@.len() == 0
        && f.selected_persons@.len() == 0 {
        SourceView::Nothing
    } else if q.len() > 0 {
        SourceView::Search(q)
    } else if f.advanced_filter_enabled {
        SourceView::AllRecords
    } else {
        match f.browse_filter {
            Some(BrowseFilter::Tag(t)) => SourceView::Tag(t@),
            Some(BrowseFilter::Person(p)) => SourceView::Person(p@),
            None => SourceView::Nothing,
        }
    }
}

impl SearchFilters {
    /// Both selections are well formed sets.
    pub open spec fn wf(&self) -> bool {
        self.selected_tags.wf() && self.selected_persons.wf()
    }

    /// No query, all kinds, completed tasks hidden, no tag or person filter,
    /// advanced mode off with AND.
    pub fn new() -> (r: Self)
        ensures
            r.wf(),
            r.query@.len() == 0,
            r.filter_type == SearchFilterType::All,
            !r.show_completed_tasks,
            r.browse_filter.is_none(),
            !r.advanced_filter_enabled,
            r.selected_tags@.len() == 0,
            r.selected_persons@.len() == 0,
            r.filter_mode == AdvancedFilterMode::And,
    {
        SearchFilters {
            query: String::new(),
            filter_type: SearchFilterType::All,
            show_completed_tasks: false,
            browse_filter: None,
            advanced_filter_enabled: false,
            selected_tags: NameSet::new(),
            selected_persons: NameSet::new(),
            filter_mode: AdvancedFilterMode::And,
        }
    }

    /// Whether any tag or person is selected.
    pub fn has_advanced_filters(&self) -> (r: bool)
        ensures
            r == (self.selected_tags@.len() > 0 || self.selected_persons@.len() > 0),
    {
        !self.selected_tags.is_empty() || !self.selected_persons.is_empty()
    }

    /// Whether a tag or person filter is in force in the current mode.
    pub fn has_active_browse_filters(&self) -> (r: bool)
        ensures
            r == if self.advanced_filter_enabled {
                self.selected_tags@.len() > 0 || self.selected_persons@.len() > 0
            } else {
                self.browse_filter.is_some()
            },
    {
        if self.advanced_filter_enabled {
            self.has_advanced_filters()
        } else {
            self.browse_filter.is_some()
        }
    }

    /// Whether the chip of tag `tag` shows as picked.
    pub fn is_tag_chip_selected(&self, tag: &str) -> (r: bool)
        requires
            self.wf(),
        ensures
            r == tag_chip_selected(*self, tag@),
    {
        if self.advanced_filter_enabled {
            self.selected_tags.contains(tag)
        } else {
            match &self.browse_filter {
                Some(BrowseFilter::Tag(t)) => text_equals(t.as_str(), tag),
                _ => false,
            }
        }
    }

    /// Whether the chip of person `person` shows as picked.
    pub fn is_person_chip_selected(&self, person: &str) -> (r: bool)
        requires
            self.wf(),
        ensures
            r == person_chip_selected(*self, person@),
    {
        if self.advanced_filter_enabled {
            self.selected_persons.contains(person)
        } else {
            match &self.browse_filter {
                Some(BrowseFilter::Person(p)) => text_equals(p.as_str(), person),
                _ => false,
            }
        }
    }

    /// Whether `record` passes every filter.
    pub fn should_show_record(&self, record: &Record) -> (r: bool)
        ensures
            r == shows(*self, *record),
    {
        if !self.filter_type.matches(&record.record_type) {
            return false;
        }
        if !matches_completion_visibility(self.show_completed_tasks, record) {
            return false;
        }
        if self.advanced_filter_enabled {
            matches_advanced_filter(
                record,
                &self.selected_tags,
                &self.selected_persons,
                self.filter_mode,
            )
        } else {
            match &self.browse_filter {
                Some(browse_filter) => matches_single_browse_filter(record, browse_filter),
                None => true,
            }
        }
    }

    /// The records among `results` that pass the filters, newest first.
    pub fn get_filtered_results(&self, results: Vec<Record>) -> (r: Vec<Record>)
        ensures
            r@ == newest_first(results@.filter(shown_by(*self))),
            is_newest_first(r@),
            r@.to_multiset() == results@.filter(shown_by(*self)).to_multiset(),
    {
        let ghost orig = results@;
        let mut rest = results;
        let mut kept: Vec<Record> = Vec::new();
        let ghost mut done: int = 0;
        proof {
            assert(orig.take(0).filter(shown_by(*self)) =~= Seq::<Record>::empty());
            assert(orig.skip(0) =~= orig);
        }
        while rest.len() > 0
            invariant
                0 <= done <= orig.len(),
                rest@ == orig.skip(done),
                kept@ == orig.take(done).filter(shown_by(*self)),
            decreases rest.len(),
        {
            let record = rest.remove(0);
            let show = self.should_show_record(&record);
            proof {
                assert(record == orig[done]);
                assert(rest@ =~= orig.skip(done + 1));
                assert(orig.take(done + 1) =~= orig.take(done).push(record));
                orig.take(done).lemma_filter_push(record, shown_by(*self));
                assert(shown_by(*self)(record) == show);
            }
            if show {
                kept.push(record);
            }
            proof {
                done = done + 1;
            }
        }
        proof {
            assert(orig.take(done) =~= orig);
        }
        sort_results_by_created_at_desc(&mut kept);
        kept
    }

    /// Clicking a tag: in advanced mode it is selected or deselected, else it
    /// becomes or stops being the browse filter.
    pub fn toggle_tag(&mut self, tag: &str)
        requires
            old(self).wf(),
        ensures
            final(self).wf(),
            old(self).advanced_filter_enabled ==> final(self).selected_tags.members() == toggled(
                old(self).selected_tags.members(),
                tag@,
            ) && final(self).browse_filter == old(self).browse_filter,
            !old(self).advanced_filter_enabled ==> final(self).selected_tags == old(self).selected_tags
                && browse_view(final(self).browse_filter) == after_click(
                browse_view(old(self).browse_filter),
                BrowseView::Tag(tag@),
            ),
            final(self).selected_persons == old(self).selected_persons,
            final(self).advanced_filter_enabled == old(self).advanced_filter_enabled,
            final(self).query == old(self).query,
            final(self).filter_type == old(self).filter_type,
            final(self).show_completed_tasks == old(self).show_completed_tasks,
            final(self).filter_mode == old(self).filter_mode,
            tag_chip_selected(*final(self), tag@) == !tag_chip_selected(*old(self), tag@),
    {
        if self.advanced_filter_enabled {
            self.selected_tags.toggle(tag);
        } else {
            let clicked = BrowseFilter::Tag(string_of(chars_of(tag).as_slice()));
            let next = next_browse_filter(self.browse_filter.as_ref(), clicked);
            self.browse_filter = next;
        }
    }

    /// Clicking a person: in advanced mode they are selected or deselected,
    /// else they become or stop being the browse filter.
    pub fn toggle_person(&mut self, person: &str)
        requires
            old(self).wf(),
        ensures
            final(self).wf(),
            old(self).advanced_filter_enabled ==> final(self).selected_persons.members()
                == toggled(old(self).selected_persons.members(), person@)
                && final(self).browse_filter == old(self).browse_filter,
            !old(self).advanced_filter_enabled ==> final(self).selected_persons == old(self).selected_persons
                && browse_view(final(self).browse_filter) == after_click(
                browse_view(old(self).browse_filter),
                BrowseView::Person(person@),
            ),
            final(self).selected_tags == old(self).selected_tags,
            final(self).advanced_filter_enabled == old(self).advanced_filter_enabled,
            final(self).query == old(self).query,
            final(self).filter_type == old(self).filter_type,
            final(self).show_completed_tasks == old(self).show_completed_tasks,
            final(self).filter_mode == old(self).filter_mode,
            person_chip_selected(*final(self), person@) == !person_chip_selected(*old(self), person@),
    {
        if self.advanced_filter_enabled {
            self.selected_persons.toggle(person);
        } else {
            let clicked = BrowseFilter::Person(string_of(chars_of(person).as_slice()));
            let next = next_browse_filter(self.browse_filter.as_ref(), clicked);
            self.browse_filter = next;
        }
    }

    /// Drops the browse filter and every selected tag and person.
    pub fn clear_tag_filters(&mut self)
        ensures
            final(self).wf(),
            final(self).browse_filter.is_none(),
            final(self).selected_tags@.len() == 0,
            final(self).selected_persons@.len() == 0,
            final(self).query == old(self).query,
            final(self).filter_type == old(self).filter_type,
            final(self).show_completed_tasks == old(self).show_completed_tasks,
            final(self).advanced_filter_enabled == old(self).advanced_filter_enabled,
            final(self).filter_mode == old(self).filter_mode,
    {
        self.browse_filter = None;
        self.selected_tags.clear();
        self.selected_persons.clear();
    }

    /// Switches advanced mode on or off as `apply_advanced_filter_toggle`
    /// says; false, with nothing changed, when it already is so.
    pub fn set_advanced_filter_enabled(&mut self, enabled: bool) -> (changed: bool)
        requires
            old(self).wf(),
        ensures
            final(self).wf(),
            changed == (enabled != old(self).advanced_filter_enabled),
            !changed ==> *final(self) == *old(self),
            changed ==> final(self).advanced_filter_enabled == enabled
                && final(self).browse_filter.is_none(),
            changed && enabled ==> final(self).selected_tags.members() == match old(
                self,
            ).browse_filter {
                Some(BrowseFilter::Tag(t)) => old(self).selected_tags.members().insert(t@),
                _ => old(self).selected_tags.members(),
            } && final(self).selected_persons.members() == match old(self).browse_filter {
                Some(BrowseFilter::Person(p)) => old(self).selected_persons.members().insert(p@),
                _ => old(self).selected_persons.members(),
            } && final(self).filter_mode == old(self).filter_mode,
            changed && !enabled ==> final(self).selected_tags@.len() == 0
                && final(self).selected_persons@.len() == 0 && final(self).filter_mode
                == AdvancedFilterMode::And,
            final(self).query == old(self).query,
            final(self).filter_type == old(self).filter_type,
            final(self).show_completed_tasks == old(self).show_completed_tasks,
    {
        if enabled == self.advanced_filter_enabled {
            return false;
        }
        let (browse_filter, selected_tags, selected_persons, filter_mode) =
            apply_advanced_filter_toggle(
            self.browse_filter.as_ref(),
            enabled,
            &self.selected_tags,
            &self.selected_persons,
            self.filter_mode,
        );
        self.advanced_filter_enabled = enabled;
        self.browse_filter = browse_filter;
        self.selected_tags = selected_tags;
        self.selected_persons = selected_persons;
        self.filter_mode = filter_mode;
        true
    }

    /// Switches between AND and OR.
    pub fn toggle_advanced_filter_mode(&mut self)
        ensures
            final(self).filter_mode == other_mode(old(self).filter_mode),
            final(self).query == old(self).query,
            final(self).filter_type == old(self).filter_type,
            final(self).show_completed_tasks == old(self).show_completed_tasks,
            final(self).browse_filter == old(self).browse_filter,
            final(self).advanced_filter_enabled == old(self).advanced_filter_enabled,
            final(self).selected_tags == old(self).selected_tags,
            final(self).selected_persons == old(self).selected_persons,
    {
        self.filter_mode = self.filter_mode.toggle();
    }

    /// Where the results come from for the current filters: nothing without
    /// a query or a filter, else a text search for the trimmed query, else
    /// every record in advanced mode, else the records of the browse filter.
    pub fn results_source(&self) -> (r: ResultsSource)
        ensures
            r@ == results_source_of(*self),
    {
        let chars = chars_of(self.query.as_str());
        let trimmed = trim_chars(chars.as_slice());
        let advanced = self.advanced_filter_enabled;
        if trimmed.len() == 0 && !advanced && self.browse_filter.is_none() {
            return ResultsSource::Nothing;
        }
        if trimmed.len() == 0 && advanced && !self.has_advanced_filters() {
            return ResultsSource::Nothing;
        }
        if trimmed.len() > 0 {
            return ResultsSource::Search(string_of(trimmed.as_slice()));
        }
        if advanced {
            return ResultsSource::AllRecords;
        }
        match &self.browse_filter {
            Some(f) => match copy_browse_filter(f) {
                BrowseFilter::Tag(t) => ResultsSource::Tag(t),
                BrowseFilter::Person(p) => ResultsSource::Person(p),
            },
            None => ResultsSource::Nothing,
        }
    }
}

/// Whether `record` is the one open in its sidebar: the task sidebar for a
/// task, the record sidebar for anything else.
pub fn is_record_selected(
    record: &Record,
    selected_task_id: Option<u128>,
    selected_record_id: Option<u128>,
) -> (r: bool)
    ensures
        r == if record.record_type == RecordType::Task {
            selected_task_id == Some(record.id)
        } else {
            selected_record_id == Some(record.id)
        },
{
    match detail_target_for(record) {
        SearchDetailTarget::Task => match selected_task_id {
            Some(id) => id == record.id,
            None => false,
        },
        SearchDetailTarget::Record => match selected_record_id {
            Some(id) => id == record.id,
            None => false,
        },
    }
}

/// What a deletion confirmation calls a record: `任务` for a task, `记录`
/// for anything else.
pub fn deletion_label(record: &Record) -> (r: &'static str)
    ensures
        r@ == if record.record_type == RecordType::Task {
            "任务"@
        } else {
            "记录"@
        },
{
    match detail_target_for(record) {
        SearchDetailTarget::Task => "任务",
        SearchDetailTarget::Record => "记录",
    }
}

/// Some shown result of `results` has kind `task` (a task, or not a task)
/// and id `id`.
pub open spec fn shown_with(f: SearchFilters, results: Seq<Record>, task: bool, id: u128) -> bool {
    exists|k: int|
        0 <= k < results.len() && shows(f, #[trigger] results[k]) && (results[k].record_type
            == RecordType::Task) == task && results[k].id == id
}

impl SearchFilters {
    /// Which open sidebars must close because their item is no longer among
    /// the shown results: the first flag for the task sidebar, the second for
    /// the record sidebar.
    pub fn sidebars_to_dismiss(
        &self,
        results: &Vec<Record>,
        selected_task_id: Option<u128>,
        selected_record_id: Option<u128>,
    ) -> (r: (bool, bool))
        ensures
            r.0 == match selected_task_id {
                Some(id) => !shown_with(*self, results@, true, id),
                None => false,
            },
            r.1 == match selected_record_id {
                Some(id) => !shown_with(*self, results@, false, id),
                None => false,
            },
    {
        let mut keep_task = false;
        let mut keep_record = false;
        let mut i: usize = 0;
        while i < results.len()
            invariant
                0 <= i <= results.len(),
                keep_task == match selected_task_id {
                    Some(id) => exists|k: int|
                        0 <= k < i && shows(*self, #[trigger] results@[k]) && (
                        results@[k].record_type == RecordType::Task) && results@[k].id == id,
                    None => false,
                },
                keep_record == match selected_record_id {
                    Some(id) => exists|k: int|
                        0 <= k < i && shows(*self, #[trigger] results@[k]) && (
                        results@[k].record_type != RecordType::Task) && results@[k].id == id,
                    None => false,
                },
            decreases results.len() - i,
        {
            let record = &results[i];
            if self.should_show_record(record) {
                let is_task = matches!(record.record_type, RecordType::Task);
                match selected_task_id {
                    Some(id) => {
                        if is_task && record.id == id {
                            keep_task = true;
                        }
                    },
                    None => {},
                }
                match selected_record_id {
                    Some(id) => {
                        if !is_task && record.id == id {
                            keep_record = true;
                        }
                    },
                    None => {},
                }
            }
            i += 1;
        }
        let dismiss_task = match selected_task_id {
            Some(_) => !keep_task,
            None => false,
        };
        let dismiss_record = match selected_record_id {
            Some(_) => !keep_record,
            None => false,
        };
        (dismiss_task, dismiss_record)
    }
}

} // verus!
