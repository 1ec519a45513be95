//! The task panel's filters and its urgency–importance matrix.
use vstd::prelude::*;
use crate::models::{Priority, Record};
use crate::name_set::{all_listed, any_listed, toggled, NameSet};
use crate::strings::string_views;

verus! {

/// A day in nanoseconds: a task due within it is urgent.
pub const URGENT_WITHIN_NS: i128 = 86_400_000_000_000;

/// The two ways the task panel lays out tasks.
#[derive(Clone, Copy, PartialEq, Eq, Debug, Structural)]
pub enum TaskView {
    List,
    Matrix,
}

impl TaskView {
    /// The label of the view switch.
    pub fn label(&self) -> (r: &'static str)
        ensures
            r@ == match *self {
                TaskView::List => "列表视图"@,
                TaskView::Matrix => "矩阵视图"@,
            },
    {
        match self {
            TaskView::List => "列表视图",
            TaskView::Matrix => "矩阵视图",
        }
    }
}

/// The four quadrants of the urgency–importance matrix.
#[derive(Clone, Copy, PartialEq, Eq, Debug, Hash, Structural)]
pub enum Quadrant {
    UrgentImportant,
    NotUrgentImportant,
    UrgentNotImportant,
    NotUrgentNotImportant,
}

impl Quadrant {
    /// The title of the quadrant.
    pub fn label(&self) -> (r: &'static str)
        ensures
            r@ == match *self {
                Quadrant::UrgentImportant => "重要且紧急"@,
                Quadrant::NotUrgentImportant => "重要不紧急"@,
                Quadrant::UrgentNotImportant => "不重要紧急"@,
                Quadrant::NotUrgentNotImportant => "不重要不紧急"@,
            },
    {
        match self {
            Quadrant::UrgentImportant => "重要且紧急",
            Quadrant::NotUrgentImportant => "重要不紧急",
            Quadrant::UrgentNotImportant => "不重要紧急",
            Quadrant::NotUrgentNotImportant => "不重要不紧急",
        }
    }
}

/// The place of a quadrant when the matrix is stacked in one column.
pub open spec fn stack_index(q: Quadrant) -> nat {
    match q {
        Quadrant::UrgentImportant => 0,
        Quadrant::NotUrgentImportant => 1,
        Quadrant::UrgentNotImportant => 2,
        Quadrant::NotUrgentNotImportant => 3,
    }
}

/// The place of a quadrant when the matrix is stacked in one column.
pub fn quadrant_stack_index(quadrant: Quadrant) -> (r: usize)
    ensures
        r == stack_index(quadrant),
{
    match quadrant {
        Quadrant::UrgentImportant => 0,
        Quadrant::NotUrgentImportant => 1,
        Quadrant::UrgentNotImportant => 2,
        Quadrant::NotUrgentNotImportant => 3,
    }
}

/// A task is urgent when it is due less than a day from `now` (or overdue),
/// and important when its priority is high.
pub open spec fn quadrant_of(task: Record, now: i128) -> Quadrant {
    let urgent = match task.due_date {
        Some(d) => d - now < URGENT_WITHIN_NS,
        None => false,
    };
    let important = task.priority == Some(Priority::High);
    if urgent && important {
        Quadrant::UrgentImportant
    } else if important {
        Quadrant::NotUrgentImportant
    } else if urgent {
        Quadrant::UrgentNotImportant
    } else {
        Quadrant::NotUrgentNotImportant
    }
}

/// A task lands in an important quadrant exactly when its priority is high,
/// and in an urgent one exactly when it is due less than a day after `now`
/// (overdue included); a task without a due date is never urgent.
pub proof fn lemma_quadrant_axes(task: Record, now: i128)
    ensures
        (quadrant_of(task, now) == Quadrant::UrgentImportant || quadrant_of(task, now)
            == Quadrant::NotUrgentImportant) <==> task.priority == Some(Priority::High),
        (quadrant_of(task, now) == Quadrant::UrgentImportant || quadrant_of(task, now)
            == Quadrant::UrgentNotImportant) <==> (task.due_date matches Some(d) && d
            < now + 86_400_000_000_000),
{
}

/// The quadrant of `task` at the instant `now` (nanoseconds since the
/// Unix epoch).
pub fn categorize_quadrant(task: &Record, now: i128) -> (r: Quadrant)
    ensures
        r == quadrant_of(*task, now),
{
    let is_urgent = match task.due_date {
        Some(d) => if now <= i128::MAX - URGENT_WITHIN_NS {
            d < now + URGENT_WITHIN_NS
        } else {
            true
        },
        None => false,
    };
    let is_important = matches!(task.priority, Some(Priority::High));
    if is_urgent && is_important {
        Quadrant::UrgentImportant
    } else if is_important {
        Quadrant::NotUrgentImportant
    } else if is_urgent {
        Quadrant::UrgentNotImportant
    } else {
        Quadrant::NotUrgentNotImportant
    }
}

/// The priorities the task list can be narrowed to.
#[derive(Clone, Copy, PartialEq, Eq, Debug, Structural)]
pub enum PriorityFilter {
    All,
    High,
    Medium,
    Low,
}

/// Whether priority `p` passes `f`; a task without priority counts as low.
pub open spec fn priority_matches(f: PriorityFilter, p: Option<Priority>) -> bool {
    match f {
        PriorityFilter::All => true,
        PriorityFilter::High => p == Some(Priority::High),
        PriorityFilter::Medium => p == Some(Priority::Medium),
        PriorityFilter::Low => p == Some(Priority::Low) || p.is_none(),
    }
}

impl PriorityFilter {
    /// The label of the filter.
    pub fn label(&self) -> (r: &'static str)
        ensures
            r@ == match *self {
                PriorityFilter::All => "全部"@,
                PriorityFilter::High => "高"@,
                PriorityFilter::Medium => "中"@,
                PriorityFilter::Low => "低"@,
            },
    {
        match self {
            PriorityFilter::All => "全部",
            PriorityFilter::High => "高",
            PriorityFilter::Medium => "中",
            PriorityFilter::Low => "低",
        }
    }

    /// Whether a task of priority `priority` passes.
    pub fn matches(&self, priority: Option<Priority>) -> (r: bool)
        ensures
            r == priority_matches(*self, priority),
    {
        match self {
            PriorityFilter::All => true,
            PriorityFilter::High => matches!(priority, Some(Priority::High)),
            PriorityFilter::Medium => matches!(priority, Some(Priority::Medium)),
            PriorityFilter::Low => matches!(priority, Some(Priority::Low) | None),
        }
    }
}

/// How several selected tags combine.
#[derive(Clone, Copy, PartialEq, Eq, Debug, Structural)]
pub enum TagFilterMode {
    And,
    Or,
}

impl TagFilterMode {
    /// `AND` or `OR`.
    pub fn label(&self) -> (r: &'static str)
        ensures
            r@ == match *self {
                TagFilterMode::And => "AND"@,
                TagFilterMode::Or => "OR"@,
            },
    {
        match self {
            TagFilterMode::And => "AND",
            TagFilterMode::Or => "OR",
        }
    }

    /// The other mode.
    pub fn toggle(&self) -> (r: Self)
        ensures
            r == match *self {
                TagFilterMode::And => TagFilterMode::Or,
                TagFilterMode::Or => TagFilterMode::And,
            },
    {
        match self {
            TagFilterMode::And => TagFilterMode::Or,
            TagFilterMode::Or => TagFilterMode::And,
        }
    }
}

/// With no tag selected every task passes; in AND mode a task must carry
/// every selected tag, in OR mode at least one.
pub open spec fn tags_match(selected: Set<Seq<char>>, mode: TagFilterMode, task: Record) -> bool {
    if selected.is_empty() {
        true
    } else {
        match mode {
            TagFilterMode::And => forall|x: Seq<char>| #[trigger]
                selected.contains(x) ==> string_views(task.tags@).contains(x),
            TagFilterMode::Or => exists|x: Seq<char>| #[trigger]
                selected.contains(x) && string_views(task.tags@).contains(x),
        }
    }
}

/// The filters of the task panel.
#[derive(Debug)]
pub struct TaskFilters {
    pub priority_filter: PriorityFilter,
    pub show_completed: bool,
    pub selected_tags: NameSet,
    pub tag_filter_mode: TagFilterMode,
}

/// Whether the filters `f` show `task`.
pub open spec fn task_shown(f: TaskFilters, task: Record) -> bool {
    &&& priority_matches(f.priority_filter, task.priority)
    &&& (task.completed_at.is_none() || f.show_completed)
    &&& tags_match(f.selected_tags.members(), f.tag_filter_mode, task)
}

/// The tasks the filters `f` show, as a filter predicate.
pub open spec fn shown_tasks(f: TaskFilters) -> spec_fn(Record) -> bool {
    |t: Record| task_shown(f, t)
}

/// The open tasks among `tasks` that fall in quadrant `q` at `now`.
pub open spec fn in_quadrant(q: Quadrant, now: i128) -> spec_fn(Record) -> bool {
    |t: Record| t.completed_at.is_none() && quadrant_of(t, now) == q
}

/// The shown open tasks, split by quadrant, each list in the order of the tasks.
#[derive(Debug)]
pub struct QuadrantGroups {
    pub urgent_important: Vec<Record>,
    pub not_urgent_important: Vec<Record>,
    pub urgent_not_important: Vec<Record>,
    pub not_urgent_not_important: Vec<Record>,
}

impl TaskFilters {
    /// The selected tags form a well formed set.
    pub open spec fn wf(&self) -> bool {
        self.selected_tags.wf()
    }

    /// All priorities, completed tasks hidden, no tag selected, AND.
    pub fn new() -> (r: Self)
        ensures
            r.wf(),
            r.priority_filter == PriorityFilter::All,
            !r.show_completed,
            r.selected_tags@.len() == 0,
            r.tag_filter_mode == TagFilterMode::And,
    {
        TaskFilters {
            priority_filter: PriorityFilter::All,
            show_completed: false,
            selected_tags: NameSet::new(),
            tag_filter_mode: TagFilterMode::And,
        }
    }

    /// Whether `task` passes the tag filter.
    pub fn matches_tag_filter(&self, task: &Record) -> (r: bool)
        ensures
            r == tags_match(self.selected_tags.members(), self.tag_filter_mode, *task),
    {
        let ghost sel = self.selected_tags.members();
        if self.selected_tags.is_empty() {
            proof {
                assert(sel =~= Set::<Seq<char>>::empty());
            }
            return true;
        }
        proof {
            assert(sel.contains(self.selected_tags@[0]));
        }
        let tags = self.selected_tags.names();
        proof {
            assert forall|x: Seq<char>| sel.contains(x) <==> exists|i: int|
                0 <= i < tags@.len() && #[trigger] tags@[i]@ == x by {
                if sel.contains(x) {
                    let i = choose|i: int| 0 <= i < self.selected_tags@.len() && self.selected_tags@[i] == x;
                    assert(string_views(tags@)[i] == tags@[i]@);
                }
                if exists|i: int| 0 <= i < tags@.len() && #[trigger] tags@[i]@ == x {
                    let i = choose|i: int| 0 <= i < tags@.len() && #[trigger] tags@[i]@ == x;
                    assert(string_views(tags@)[i] == x);
                }
            }
        }
        match self.tag_filter_mode {
            TagFilterMode::And => {
                let a = all_listed(&tags, task.tags.as_slice());
                proof {
                    if !a {
                        let i = choose|i: int| 0 <= i < tags@.len() && !string_views(task.tags@).contains(#[trigger] tags@[i]@);
                        assert(sel.contains(tags@[i]@));
                    }
                }
                a
            },
            TagFilterMode::Or => {
                let a = any_listed(&tags, task.tags.as_slice());
                proof {
                    if a {
                        let i = choose|i: int| 0 <= i < tags@.len() && string_views(task.tags@).contains(#[trigger] tags@[i]@);
                        assert(sel.contains(tags@[i]@));
                    }
                }
                a
            },
        }
    }

    /// Whether `task` passes every filter.
    pub fn shows_task(&self, task: &Record) -> (r: bool)
        ensures
            r == task_shown(*self, *task),
    {
        self.priority_filter.matches(task.priority) && (task.completed_at.is_none()
            || self.show_completed) && self.matches_tag_filter(task)
    }

    /// The tasks among `tasks` that pass the filters, in their order.
    pub fn get_filtered_tasks(&self, tasks: Vec<Record>) -> (r: Vec<Record>)
        ensures
            r@ == tasks@.filter(shown_tasks(*self)),
    {
        let ghost orig = tasks@;
        let mut rest = tasks;
        let mut kept: Vec<Record> = Vec::new();
        let ghost mut done: int = 0;
        proof {
            assert(orig.take(0).filter(shown_tasks(*self)) =~= Seq::<Record>::empty());
            assert(orig.skip(0) =~= orig);
        }
        while rest.len() > 0
            invariant
                0 <= done <= orig.len(),
                rest@ == orig.skip(done),
                kept@ == orig.take(done).filter(shown_tasks(*self)),
            decreases rest.len(),
        {
            let task = rest.remove(0);
            let show = self.shows_task(&task);
            proof {
                assert(task == orig[done]);
                assert(rest@ =~= orig.skip(done + 1));
                assert(orig.take(done + 1) =~= orig.take(done).push(task));
                orig.take(done).lemma_filter_push(task, shown_tasks(*self));
                assert(shown_tasks(*self)(task) == show);
            }
            if show {
                kept.push(task);
            }
            proof {
                done = done + 1;
            }
        }
        proof {
            assert(orig.take(done) =~= orig);
        }
        kept
    }

    /// The shown open tasks among `tasks`, by quadrant at the instant `now`.
    pub fn group_tasks_by_quadrant(&self, tasks: Vec<Record>, now: i128) -> (r: QuadrantGroups)
        ensures
            r.urgent_important@ == tasks@.filter(shown_tasks(*self)).filter(
                in_quadrant(Quadrant::UrgentImportant, now),
            ),
            r.not_urgent_important@ == tasks@.filter(shown_tasks(*self)).filter(
                in_quadrant(Quadrant::NotUrgentImportant, now),
            ),
            r.urgent_not_important@ == tasks@.filter(shown_tasks(*self)).filter(
                in_quadrant(Quadrant::UrgentNotImportant, now),
            ),
            r.not_urgent_not_important@ == tasks@.filter(shown_tasks(*self)).filter(
                in_quadrant(Quadrant::NotUrgentNotImportant, now),
            ),
    {
        let filtered = self.get_filtered_tasks(tasks);
        let ghost orig = filtered@;
        let mut rest = filtered;
        let mut groups = QuadrantGroups {
            urgent_important: Vec::new(),
            not_urgent_important: Vec::new(),
            urgent_not_important: Vec::new(),
            not_urgent_not_important: Vec::new(),
        };
        let ghost mut done: int = 0;
        let ghost p0 = in_quadrant(Quadrant::UrgentImportant, now);
        let ghost p1 = in_quadrant(Quadrant::NotUrgentImportant, now);
        let ghost p2 = in_quadrant(Quadrant::UrgentNotImportant, now);
        let ghost p3 = in_quadrant(Quadrant::NotUrgentNotImportant, now);
        proof {
            assert(orig.take(0).filter(p0) =~= Seq::<Record>::empty());
            assert(orig.take(0).filter(p1) =~= Seq::<Record>::empty());
            assert(orig.take(0).filter(p2) =~= Seq::<Record>::empty());
            assert(orig.take(0).filter(p3) =~= Seq::<Record>::empty());
            assert(orig.skip(0) =~= orig);
        }
        while rest.len() > 0
            invariant
                0 <= done <= orig.len(),
                rest@ == orig.skip(done),
                p0 == in_quadrant(Quadrant::UrgentImportant, now),
                p1 == in_quadrant(Quadrant::NotUrgentImportant, now),
                p2 == in_quadrant(Quadrant::UrgentNotImportant, now),
                p3 == in_quadrant(Quadrant::NotUrgentNotImportant, now),
                groups.urgent_important@ == orig.take(done).filter(p0),
                groups.not_urgent_important@ == orig.take(done).filter(p1),
                groups.urgent_not_important@ == orig.take(done).filter(p2),
                groups.not_urgent_not_important@ == orig.take(done).filter(p3),
            decreases rest.len(),
        {
            let task = rest.remove(0);
            proof {
                assert(task == orig[done]);
                assert(rest@ =~= orig.skip(done + 1));
                assert(orig.take(done + 1) =~= orig.take(done).push(task));
                orig.take(done).lemma_filter_push(task, p0);
                orig.take(done).lemma_filter_push(task, p1);
                orig.take(done).lemma_filter_push(task, p2);
                orig.take(done).lemma_filter_push(task, p3);
            }
            if task.completed_at.is_none() {
                let q = categorize_quadrant(&task, now);
                proof {
                    assert(p0(task) == (q == Quadrant::UrgentImportant));
                    assert(p1(task) == (q == Quadrant::NotUrgentImportant));
                    assert(p2(task) == (q == Quadrant::UrgentNotImportant));
                    assert(p3(task) == (q == Quadrant::NotUrgentNotImportant));
                }
                match q {
                    Quadrant::UrgentImportant => groups.urgent_important.push(task),
                    Quadrant::NotUrgentImportant => groups.not_urgent_important.push(task),
                    Quadrant::UrgentNotImportant => groups.urgent_not_important.push(task),
                    Quadrant::NotUrgentNotImportant => groups.not_urgent_not_important.push(task),
                }
            } else {
                proof {
                    assert(!p0(task) && !p1(task) && !p2(task) && !p3(task));
                }
            }
            proof {
                done = done + 1;
            }
        }
        proof {
            assert(orig.take(done) =~= orig);
        }
        groups
    }

    /// Selects `tag`, or deselects it when it is selected.
    pub fn toggle_tag_filter(&mut self, tag: &str)
        requires
            old(self).wf(),
        ensures
            final(self).wf(),
            final(self).selected_tags.members() == toggled(old(self).selected_tags.members(), tag@),
            final(self).priority_filter == old(self).priority_filter,
            final(self).show_completed == old(self).show_completed,
            final(self).tag_filter_mode == old(self).tag_filter_mode,
    {
        self.selected_tags.toggle(tag);
    }

    /// Deselects every tag.
    pub fn clear_tag_filters(&mut self)
        ensures
            final(self).wf(),
            final(self).selected_tags@.len() == 0,
            final(self).priority_filter == old(self).priority_filter,
            final(self).show_completed == old(self).show_completed,
            final(self).tag_filter_mode == old(self).tag_filter_mode,
    {
        self.selected_tags.clear();
    }

    /// Switches between AND and OR.
    pub fn toggle_tag_filter_mode(&mut self)
        ensures
            final(self).tag_filter_mode != old(self).tag_filter_mode,
            final(self).priority_filter == old(self).priority_filter,
            final(self).show_completed == old(self).show_completed,
            final(self).selected_tags == old(self).selected_tags,
    {
        self.tag_filter_mode = self.tag_filter_mode.toggle();
    }
}

} // verus!
