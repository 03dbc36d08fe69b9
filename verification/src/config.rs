//! The part of the user's configuration that the commands read: the
//! configured workspaces, in the order in which the user listed them.

use vstd::prelude::*;
use crate::model::TreeView;
use crate::tree::Tree;

verus! {

/// One configured workspace.
#[derive(Debug)]
pub struct WorkspaceConfig {
    /// The name, by which the workspace is found.
    pub name: String,
    /// The index of the monitor that the workspace belongs on, if any.
    pub bind_to_monitor: Option<u32>,
    /// Whether the workspace stays when it is empty and not shown.
    pub keep_alive: bool,
}

/// The view of one configured workspace.
pub struct WorkspaceConfigView {
    pub name: Seq<char>,
    pub bind_to_monitor: Option<u32>,
    pub keep_alive: bool,
}

impl View for WorkspaceConfig {
    type V = WorkspaceConfigView;

    open spec fn view(&self) -> WorkspaceConfigView {
        WorkspaceConfigView {
            name: self.name@,
            bind_to_monitor: self.bind_to_monitor,
            keep_alive: self.keep_alive,
        }
    }
}

/// The configuration.
#[derive(Debug)]
pub struct UserConfig {
    pub workspaces: Vec<WorkspaceConfig>,
}

/// The view of the configuration.
pub struct ConfigView {
    pub workspaces: Seq<WorkspaceConfigView>,
}

impl View for UserConfig {
    type V = ConfigView;

    open spec fn view(&self) -> ConfigView {
        ConfigView {
            workspaces: Seq::new(self.workspaces.len() as nat, |i: int| self.workspaces[i]@),
        }
    }
}

/// Which configured workspaces a search looks at.
pub enum ConfigFilter {
    /// Those with the given name.
    Named(Seq<char>),
    /// Those bound to the monitor with the given index.
    BoundTo(int),
    /// All of them.
    Any,
}

impl ConfigFilter {
    pub open spec fn admits(self, c: WorkspaceConfigView) -> bool {
        match self {
            ConfigFilter::Named(n) => c.name == n,
            ConfigFilter::BoundTo(index) => c.bind_to_monitor matches Some(b) && b as int == index,
            ConfigFilter::Any => true,
        }
    }

    /// The filter that a name and a monitor index ask for: the name decides
    /// where there is one, else the index, else nothing is filtered.
    pub open spec fn of(name: Option<Seq<char>>, bound_to: Option<usize>) -> ConfigFilter {
        match name {
            Some(n) => ConfigFilter::Named(n),
            None => match bound_to {
                Some(index) => ConfigFilter::BoundTo(index as int),
                None => ConfigFilter::Any,
            },
        }
    }
}

impl ConfigView {
    /// The first position from `i` on whose entry has the name `name`, or
    /// the number of entries where there is none.
    pub open spec fn first_named_from(self, i: int, name: Seq<char>) -> int
        decreases self.workspaces.len() - i,
    {
        if i < 0 || i >= self.workspaces.len() {
            self.workspaces.len() as int
        } else if self.workspaces[i].name == name {
            i
        } else {
            self.first_named_from(i + 1, name)
        }
    }

    /// The place of a workspace in the order of its monitor's workspaces:
    /// the position of the first entry with its name, and the number of
    /// entries for a workspace that has no name or no entry.
    pub open spec fn rank(self, name: Option<Seq<char>>) -> int {
        match name {
            Some(n) => self.first_named_from(0, n),
            None => self.workspaces.len() as int,
        }
    }

    /// Whether entry `i` passes the filter and no live workspace of `tree`
    /// has its name.
    pub open spec fn eligible(self, i: int, filter: ConfigFilter, tree: TreeView) -> bool {
        filter.admits(self.workspaces[i]) && !tree.name_taken(self.workspaces[i].name)
    }

    /// The first position from `i` on whose entry is eligible, or the
    /// number of entries where there is none.
    pub open spec fn first_eligible_from(self, i: int, filter: ConfigFilter, tree: TreeView) -> int
        decreases self.workspaces.len() - i,
    {
        if i < 0 || i >= self.workspaces.len() {
            self.workspaces.len() as int
        } else if self.eligible(i, filter, tree) {
            i
        } else {
            self.first_eligible_from(i + 1, filter, tree)
        }
    }

    /// The position of the first eligible entry, or the number of entries
    /// where there is none.
    pub open spec fn first_eligible(self, filter: ConfigFilter, tree: TreeView) -> int {
        self.first_eligible_from(0, filter, tree)
    }

    /// `first_named_from` returns the least position at or after `i` whose
    /// entry has the name.
    pub proof fn lemma_first_named(self, i: int, name: Seq<char>)
        requires
            0 <= i <= self.workspaces.len(),
        ensures
            i <= self.first_named_from(i, name) <= self.workspaces.len(),
            self.first_named_from(i, name) < self.workspaces.len() ==> self.workspaces[self.first_named_from(
                i,
                name,
            )].name == name,
            forall|j: int|
                i <= j < self.first_named_from(i, name) ==> (#[trigger] self.workspaces[j]).name
                    != name,
        decreases self.workspaces.len() - i,
    {
        if i < self.workspaces.len() && self.workspaces[i].name != name {
            self.lemma_first_named(i + 1, name);
        }
    }

    /// `first_eligible_from` returns the least eligible position at or
    /// after `i`.
    pub proof fn lemma_first_eligible(self, i: int, filter: ConfigFilter, tree: TreeView)
        requires
            0 <= i <= self.workspaces.len(),
        ensures
            i <= self.first_eligible_from(i, filter, tree) <= self.workspaces.len(),
            self.first_eligible_from(i, filter, tree) < self.workspaces.len() ==> self.eligible(
                self.first_eligible_from(i, filter, tree),
                filter,
                tree,
            ),
            forall|j: int|
                i <= j < self.first_eligible_from(i, filter, tree) ==> !#[trigger] self.eligible(
                    j,
                    filter,
                    tree,
                ),
        decreases self.workspaces.len() - i,
    {
        if i < self.workspaces.len() && !self.eligible(i, filter, tree) {
            self.lemma_first_eligible(i + 1, filter, tree);
        }
    }
}

impl UserConfig {
    /// The place of a workspace with the name `name` in the order of its
    /// monitor's workspaces.
    pub fn rank_of(&self, name: &Option<String>) -> (r: usize)
        ensures
            r == self@.rank(crate::tree::name_view(*name)),
    {
        let n = self.workspaces.len();
        match name {
            None => n,
            Some(wanted) => {
                let mut i: usize = 0;
                while i < n
                    invariant
                        n == self.workspaces.len(),
                        i <= n,
                        crate::tree::name_view(*name) == Some(wanted@),
                        self@.first_named_from(0, wanted@) == self@.first_named_from(
                            i as int,
                            wanted@,
                        ),
                    decreases n - i,
                {
                    if self.workspaces[i].name == *wanted {
                        return i;
                    }
                    i += 1;
                }
                i
            },
        }
    }

    /// The position of the first entry that passes the filter given by
    /// `name` and `bound_to` and whose name no live workspace of `tree` has;
    /// the number of entries where there is none.
    pub fn first_inactive(&self, tree: &Tree, name: Option<&String>, bound_to: Option<usize>) -> (r:
        usize)
        ensures
            r == self@.first_eligible(
                ConfigFilter::of(
                    match name {
                        Some(n) => Some(n@),
                        None => None,
                    },
                    bound_to,
                ),
                tree@,
            ),
            r <= self.workspaces.len(),
    {
        let ghost filter = ConfigFilter::of(
            match name {
                Some(n) => Some(n@),
                None => None,
            },
            bound_to,
        );
        let n = self.workspaces.len();
        let mut i: usize = 0;
        while i < n
            invariant
                n == self.workspaces.len(),
                i <= n,
                filter == ConfigFilter::of(
                    match name {
                        Some(n) => Some(n@),
                        None => None,
                    },
                    bound_to,
                ),
                self@.first_eligible(filter, tree@) == self@.first_eligible_from(
                    i as int,
                    filter,
                    tree@,
                ),
            decreases n - i,
        {
            let entry = &self.workspaces[i];
            let admitted = match name {
                Some(wanted) => entry.name == *wanted,
                None => match bound_to {
                    Some(index) => match entry.bind_to_monitor {
                        Some(b) => b as usize == index,
                        None => false,
                    },
                    None => true,
                },
            };
            if admitted {
                let taken = tree.find_workspace_by_name(&entry.name);
                if taken.is_none() {
                    return i;
                }
            }
            i += 1;
        }
        i
    }
}

} // verus!
