//! The filters of the summary panel: the names that can be chosen, the ones
//! chosen, and whether tasks, records or both are summarized.
use vstd::prelude::*;
use crate::name_set::{NameSet, toggled};
use crate::strings::string_views;

verus! {

/// Names offered for filtering, and the names selected among them.
#[derive(Debug)]
pub struct MetadataFilters {
    pub available_tags: Vec<String>,
    pub available_persons: Vec<String>,
    pub selected_tags: NameSet,
    pub selected_persons: NameSet,
}

impl Default for MetadataFilters {
    fn default() -> (r: Self)
        ensures
            r.available_tags@.len() == 0,
            r.available_persons@.len() == 0,
            r.selected_tags@.len() == 0,
            r.selected_persons@.len() == 0,
            r.wf(),
    {
        MetadataFilters {
            available_tags: Vec::new(),
            available_persons: Vec::new(),
            selected_tags: NameSet::new(),
            selected_persons: NameSet::new(),
        }
    }
}

impl MetadataFilters {
    /// Both selections are well formed sets.
    pub open spec fn wf(&self) -> bool {
        self.selected_tags.wf() && self.selected_persons.wf()
    }

    /// Takes new lists of available names and drops every selected name
    /// that is no longer available.
    pub fn replace_catalog(&mut self, tags: Vec<String>, persons: Vec<String>)
        requires
            old(self).wf(),
        ensures
            final(self).wf(),
            final(self).available_tags@ == tags@,
            final(self).available_persons@ == persons@,
            final(self).selected_tags.members() == old(self).selected_tags.members().filter(
                |x: Seq<char>| string_views(tags@).contains(x),
            ),
            final(self).selected_persons.members() == old(
                self,
            ).selected_persons.members().filter(|x: Seq<char>| string_views(persons@).contains(x)),
            forall|x: Seq<char>| #[trigger]
                final(self).selected_tags.members().contains(x) ==> string_views(
                    final(self).available_tags@,
                ).contains(x),
            forall|x: Seq<char>| #[trigger]
                final(self).selected_persons.members().contains(x) ==> string_views(
                    final(self).available_persons@,
                ).contains(x),
    {
        self.available_tags = tags;
        self.available_persons = persons;
        self.selected_tags.retain_listed(self.available_tags.as_slice());
        self.selected_persons.retain_listed(self.available_persons.as_slice());
    }

    /// The selected tags and persons, each in ascending order.
    pub fn build_query_values(&self) -> (r: (Vec<String>, Vec<String>))
        ensures
            string_views(r.0@) == self.selected_tags@,
            string_views(r.1@) == self.selected_persons@,
    {
        (self.selected_tags.names(), self.selected_persons.names())
    }

    /// Selects `tag`, or deselects it when it is selected.
    pub fn toggle_tag(&mut self, tag: &str)
        requires
            old(self).wf(),
        ensures
            final(self).wf(),
            final(self).selected_tags.members() == toggled(old(self).selected_tags.members(), tag@),
            final(self).selected_persons == old(self).selected_persons,
            final(self).available_tags == old(self).available_tags,
            final(self).available_persons == old(self).available_persons,
    {
        self.selected_tags.toggle(tag);
    }

    /// Selects `person`, or deselects them when selected.
    pub fn toggle_person(&mut self, person: &str)
        requires
            old(self).wf(),
        ensures
            final(self).wf(),
            final(self).selected_persons.members() == toggled(
                old(self).selected_persons.members(),
                person@,
            ),
            final(self).selected_tags == old(self).selected_tags,
            final(self).available_tags == old(self).available_tags,
            final(self).available_persons == old(self).available_persons,
    {
        self.selected_persons.toggle(person);
    }
}

/// Which records the summary panel reads: all of them, only tasks, or only
/// the other records.
#[derive(Clone, Copy, PartialEq, Eq, Debug, Structural)]
pub enum RecordScope {
    All,
    Tasks,
    Records,
}

/// Whether the scope takes tasks in.
pub open spec fn includes_tasks(scope: RecordScope) -> bool {
    scope != RecordScope::Records
}

/// Whether the scope takes the other records in.
pub open spec fn includes_records(scope: RecordScope) -> bool {
    scope != RecordScope::Tasks
}

impl RecordScope {
    /// Whether tasks are summarized.
    pub fn scope_includes_tasks(self) -> (r: bool)
        ensures
            r == includes_tasks(self),
    {
        self != RecordScope::Records
    }

    /// Whether the other records are summarized.
    pub fn scope_includes_records(self) -> (r: bool)
        ensures
            r == includes_records(self),
    {
        self != RecordScope::Tasks
    }

    /// The scope after clicking the task switch: tasks join when only the
    /// other records were read; otherwise only tasks are read.
    pub fn toggle_task_scope(self) -> (r: RecordScope)
        ensures
            r == if self == RecordScope::Records {
                RecordScope::All
            } else {
                RecordScope::Tasks
            },
            includes_tasks(r),
    {
        if self == RecordScope::Records {
            RecordScope::All
        } else {
            RecordScope::Tasks
        }
    }

    /// The scope after clicking the record switch: records join when only
    /// tasks were read; otherwise only the other records are read.
    pub fn toggle_record_scope(self) -> (r: RecordScope)
        ensures
            r == if self == RecordScope::Tasks {
                RecordScope::All
            } else {
                RecordScope::Records
            },
            includes_records(r),
    {
        if self == RecordScope::Tasks {
            RecordScope::All
        } else {
            RecordScope::Records
        }
    }
}

/// Every scope reads something: tasks, the other records, or both.
pub proof fn lemma_scope_never_empty(scope: RecordScope)
    ensures
        includes_tasks(scope) || includes_records(scope),
{
}

} // verus!
