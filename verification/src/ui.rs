//! The interactive state machine: screens, list and detail state, pickers
//! and forms, and the key dispatch. The render loop owns a value of `App`;
//! everything that needs the disk goes out through the queued commands, and
//! the loop feeds results back in, so every decision here is pure.

use vstd::prelude::*;
use crate::editor::{marshal_task, spec_marshal, unmarshal_task, spec_unmarshal};
use crate::events::{Key, KeyEvent};
use crate::filter::{clone_task, filter_and_sort, SortOrder, StatusFilter};
use crate::record::{Status, Task, TaskList};
use crate::store::Store;
use crate::strutil::str_eq;

verus! {

/// Which screen has the keyboard.
#[derive(Debug, Clone, Copy, PartialEq, Eq, Structural)]
pub enum Screen {
    List,
    Detail,
    Status,
    Confirm,
    Create,
    Help,
}

/// A store operation the interface has decided on; the render loop carries
/// it out and feeds the result back.
pub enum Command {
    Reload,
    SetStatus { task_id: String, status: Status },
    Delete { task_id: String },
    CreateTask { draft: Task },
}

/// The record list view: the loaded records, the filtered view over them,
/// and the view settings.
pub struct ListState {
    pub tasks: Vec<Task>,
    pub filtered: Vec<Task>,
    pub selected: Option<usize>,
    pub status_filter: StatusFilter,
    pub sort_order: SortOrder,
    pub show_closed: bool,
    pub tree_view: bool,
    pub searching: bool,
    pub query: String,
    pub search_input: String,
    pub collapsed: Vec<String>,
    pub expanded_ids: Vec<String>,
    pub pending_z: bool,
    pub visible_count: usize,
}

impl ListState {
    /// A fresh list view over the given records: unfiltered, sorted by
    /// identifier, first row selected when there is one.
    pub fn new(tasks: Vec<Task>) -> (r: ListState)
        ensures
            r.tasks@ == tasks@,
            r.status_filter == StatusFilter::All,
            r.sort_order == SortOrder::Id,
            !r.show_closed && !r.tree_view && !r.searching && !r.pending_z,
            r.filtered.deep_view() == crate::filter::spec_sort(
                SortOrder::Id,
                crate::filter::spec_filtered(tasks.deep_view(), StatusFilter::All, false, ""@),
            ),
            r.selected == (if r.filtered@.len() > 0 {
                Some(0usize)
            } else {
                None::<usize>
            }),
    {
        let filtered = filter_and_sort(&tasks, StatusFilter::All, SortOrder::Id, false, "");
        let visible_count = filtered.len();
        let selected = if filtered.len() > 0 {
            Some(0usize)
        } else {
            None
        };
        ListState {
            tasks,
            filtered,
            selected,
            status_filter: StatusFilter::All,
            sort_order: SortOrder::Id,
            show_closed: false,
            tree_view: false,
            searching: false,
            query: String::new(),
            search_input: String::new(),
            collapsed: Vec::new(),
            expanded_ids: Vec::new(),
            pending_z: false,
            visible_count,
        }
    }

    /// Recomputes the filtered view under the current settings, clamping
    /// the selection into range.
    pub fn rebuild(&mut self)
        ensures
            final(self).filtered.deep_view() == crate::filter::spec_sort(
                old(self).sort_order,
                crate::filter::spec_filtered(
                    old(self).tasks.deep_view(),
                    old(self).status_filter,
                    old(self).show_closed,
                    old(self).query@,
                ),
            ),
            final(self).tasks@ == old(self).tasks@,
            final(self).selected matches Some(i) ==> (i as int) < final(self).filtered@.len(),
            final(self).filtered@.len() > 0 ==> final(self).selected is Some,
            final(self).status_filter == old(self).status_filter,
            final(self).sort_order == old(self).sort_order,
            final(self).show_closed == old(self).show_closed,
            final(self).tree_view == old(self).tree_view,
            final(self).searching == old(self).searching,
            final(self).query == old(self).query,
            final(self).search_input == old(self).search_input,
            final(self).collapsed == old(self).collapsed,
            final(self).expanded_ids == old(self).expanded_ids,
            final(self).pending_z == old(self).pending_z,
            final(self).visible_count == old(self).visible_count,
    {
        self.filtered = filter_and_sort(
            &self.tasks,
            self.status_filter,
            self.sort_order,
            self.show_closed,
            self.query.as_str(),
        );
        match self.selected {
            Some(i) => {
                if i >= self.filtered.len() {
                    if self.filtered.len() == 0 {
                        self.selected = None;
                    } else {
                        self.selected = Some(self.filtered.len() - 1);
                    }
                }
            },
            None => {
                if self.filtered.len() > 0 {
                    self.selected = Some(0);
                }
            },
        }
    }

    /// The selected record, when one is selected.
    pub fn selected_task(&self) -> (r: Option<&Task>)
        ensures
            match r {
                Some(t) => self.selected matches Some(i) && (i as int) < self.filtered@.len() && t
                    == &self.filtered@[self.selected.unwrap() as int],
                None => self.selected is None || (self.selected matches Some(i) && (i as int)
                    >= self.filtered@.len()),
            },
    {
        match self.selected {
            Some(i) => {
                if i < self.filtered.len() {
                    Some(&self.filtered[i])
                } else {
                    None
                }
            },
            None => None,
        }
    }

    /// The selected record's identifier.
    pub fn selected_id(&self) -> (r: Option<String>)
        ensures
            match r {
                Some(id) => self.selected matches Some(i) && (i as int) < self.filtered@.len()
                    && id@ == self.filtered@[self.selected.unwrap() as int].id@,
                None => self.selected is None || (self.selected matches Some(i) && (i as int)
                    >= self.filtered@.len()),
            },
    {
        match self.selected_task() {
            Some(t) => Some(t.id.clone()),
            None => None,
        }
    }

    /// Moves the selection one row down, stopping at the last row.
    pub fn next(&mut self)
        ensures
            ({
                let len = if old(self).tree_view {
                    old(self).visible_count
                } else {
                    old(self).filtered@.len() as usize
                };
                if len == 0 {
                    *final(self) == *old(self)
                } else {
                    final(self).selected == Some(
                        match old(self).selected {
                            Some(i) => if i + 1 < len {
                                (i + 1) as usize
                            } else {
                                (len - 1) as usize
                            },
                            None => 0usize,
                        },
                    )
                }
            }),
            final(self).filtered@ == old(self).filtered@,
            final(self).tasks@ == old(self).tasks@,
    {
        let len = if self.tree_view {
            self.visible_count
        } else {
            self.filtered.len()
        };
        if len == 0 {
            return ;
        }
        let i = match self.selected {
            Some(i) => {
                if i < len - 1 {
                    i + 1
                } else {
                    len - 1
                }
            },
            None => 0,
        };
        self.selected = Some(i);
    }

    /// Moves the selection one row up, stopping at the first row.
    pub fn prev(&mut self)
        ensures
            final(self).selected == Some(
                match old(self).selected {
                    Some(i) => if i > 0 {
                        (i - 1) as usize
                    } else {
                        0usize
                    },
                    None => 0usize,
                },
            ),
            final(self).filtered@ == old(self).filtered@,
            final(self).tasks@ == old(self).tasks@,
    {
        let i = match self.selected {
            Some(i) => {
                if i > 0 {
                    i - 1
                } else {
                    0
                }
            },
            None => 0,
        };
        self.selected = Some(i);
    }
}

/// The record detail view.
pub struct DetailState {
    pub task: Task,
    pub children: Vec<Task>,
    pub scroll: u16,
}

impl DetailState {
    /// A detail view of a record and its children, scrolled to the top.
    pub fn new(task: Task, children: Vec<Task>) -> (r: DetailState)
        ensures
            r.task == task,
            r.children == children,
            r.scroll == 0,
    {
        DetailState { task, children, scroll: 0 }
    }

    /// Scrolls one line down.
    pub fn scroll_down(&mut self)
        ensures
            final(self).scroll == (if old(self).scroll == u16::MAX {
                u16::MAX
            } else {
                (old(self).scroll + 1) as u16
            }),
            final(self).task == old(self).task,
    {
        if self.scroll < 0xffff {
            self.scroll = self.scroll + 1;
        }
    }

    /// Scrolls one line up.
    pub fn scroll_up(&mut self)
        ensures
            final(self).scroll == (if old(self).scroll == 0 {
                0u16
            } else {
                (old(self).scroll - 1) as u16
            }),
            final(self).task == old(self).task,
    {
        if self.scroll > 0 {
            self.scroll = self.scroll - 1;
        }
    }

    /// Scrolls one page down.
    pub fn page_down(&mut self, page: u16)
        ensures
            final(self).scroll == (if old(self).scroll + page <= u16::MAX {
                (old(self).scroll + page) as u16
            } else {
                u16::MAX
            }),
            final(self).task == old(self).task,
    {
        if self.scroll <= 0xffff - page {
            self.scroll = self.scroll + page;
        } else {
            self.scroll = 0xffff;
        }
    }

    /// Scrolls one page up.
    pub fn page_up(&mut self, page: u16)
        ensures
            final(self).scroll == (if old(self).scroll >= page {
                (old(self).scroll - page) as u16
            } else {
                0u16
            }),
            final(self).task == old(self).task,
    {
        if self.scroll >= page {
            self.scroll = self.scroll - page;
        } else {
            self.scroll = 0;
        }
    }
}

/// The plan detail view: a scroll position over a fixed text.
pub struct PlanDetailState {
    pub scroll: u16,
}

impl PlanDetailState {
    /// A plan view scrolled to the top.
    pub fn new() -> (r: PlanDetailState)
        ensures
            r.scroll == 0,
    {
        PlanDetailState { scroll: 0 }
    }

    /// Scrolls one line down.
    pub fn scroll_down(&mut self)
        ensures
            final(self).scroll == (if old(self).scroll == u16::MAX {
                u16::MAX
            } else {
                (old(self).scroll + 1) as u16
            }),
    {
        if self.scroll < 0xffff {
            self.scroll = self.scroll + 1;
        }
    }

    /// Scrolls one line up.
    pub fn scroll_up(&mut self)
        ensures
            final(self).scroll == (if old(self).scroll == 0 {
                0u16
            } else {
                (old(self).scroll - 1) as u16
            }),
    {
        if self.scroll > 0 {
            self.scroll = self.scroll - 1;
        }
    }

    /// Scrolls one page down.
    pub fn page_down(&mut self, page: u16)
        ensures
            final(self).scroll == (if old(self).scroll + page <= u16::MAX {
                (old(self).scroll + page) as u16
            } else {
                u16::MAX
            }),
    {
        if self.scroll <= 0xffff - page {
            self.scroll = self.scroll + page;
        } else {
            self.scroll = 0xffff;
        }
    }

    /// Scrolls one page up.
    pub fn page_up(&mut self, page: u16)
        ensures
            final(self).scroll == (if old(self).scroll >= page {
                (old(self).scroll - page) as u16
            } else {
                0u16
            }),
    {
        if self.scroll >= page {
            self.scroll = self.scroll - page;
        } else {
            self.scroll = 0;
        }
    }
}

/// The status picker: the statuses a record can move to, skipping its
/// current one.
pub struct StatusPickerState {
    pub task_id: String,
    pub options: Vec<Status>,
    pub cursor: usize,
}

impl StatusPickerState {
    /// A picker over the three lifecycle states, the current one left out.
    pub fn new(task_id: String, current: &Status) -> (r: StatusPickerState)
        ensures
            r.cursor == 0,
            r.options@.len() >= 2,
            r.task_id@ == task_id@,
            forall|i: int| 0 <= i < r.options@.len() ==> (#[trigger] r.options@[i]@)
                != current@,
    {
        let mut options: Vec<Status> = Vec::new();
        if !matches!(current, Status::Pending) {
            options.push(Status::Pending);
        }
        if !matches!(current, Status::InProgress) {
            options.push(Status::InProgress);
        }
        if !matches!(current, Status::Completed) {
            options.push(Status::Completed);
        }
        StatusPickerState { task_id, options, cursor: 0 }
    }

    /// Moves the cursor down, stopping at the last option.
    pub fn next(&mut self)
        requires
            old(self).options@.len() > 0,
        ensures
            final(self).cursor == (if old(self).cursor + 1 < old(self).options@.len() {
                (old(self).cursor + 1) as usize
            } else {
                old(self).cursor
            }),
            final(self).options == old(self).options,
            final(self).task_id == old(self).task_id,
    {
        if self.cursor < self.options.len() - 1 {
            self.cursor = self.cursor + 1;
        }
    }

    /// Moves the cursor up, stopping at the first option.
    pub fn prev(&mut self)
        ensures
            final(self).cursor == (if old(self).cursor > 0 {
                (old(self).cursor - 1) as usize
            } else {
                0usize
            }),
            final(self).options == old(self).options,
            final(self).task_id == old(self).task_id,
    {
        if self.cursor > 0 {
            self.cursor = self.cursor - 1;
        }
    }

    /// The status under the cursor.
    pub fn selected(&self) -> (r: &Status)
        requires
            (self.cursor as int) < self.options@.len(),
        ensures
            r == &self.options@[self.cursor as int],
    {
        &self.options[self.cursor]
    }
}

/// The confirmation prompt before a destructive action.
pub struct ConfirmState {
    pub task_id: String,
    pub action: String,
}

impl ConfirmState {
    /// A prompt for one action on one record.
    pub fn new(task_id: String, action: &str) -> (r: ConfirmState)
        ensures
            r.task_id@ == task_id@,
            r.action@ == action@,
    {
        ConfirmState { task_id, action: action.to_owned() }
    }
}

/// The record creation form: five text fields and the focused one.
pub struct CreateState {
    pub fields: Vec<String>,
    pub focus: usize,
}

impl CreateState {
    /// An empty form with the default priority filled in, focused on the
    /// first field.
    pub fn new() -> (r: CreateState)
        ensures
            r.fields@.len() == 5,
            r.focus == 0,
            r.fields@[2]@ == "P2"@,
            r.fields@[0]@.len() == 0,
            r.fields@[1]@.len() == 0,
            r.fields@[3]@.len() == 0,
            r.fields@[4]@.len() == 0,
    {
        let mut fields: Vec<String> = Vec::new();
        fields.push(String::new());
        fields.push(String::new());
        fields.push("P2".to_owned());
        fields.push(String::new());
        fields.push(String::new());
        proof {
            reveal_strlit("");
        }
        CreateState { fields, focus: 0 }
    }

    /// Focuses the next field, wrapping around.
    pub fn next_field(&mut self)
        requires
            old(self).focus < 5,
        ensures
            final(self).focus == ((old(self).focus + 1) % 5) as usize,
            final(self).fields == old(self).fields,
    {
        self.focus = (self.focus + 1) % 5;
    }

    /// Focuses the previous field, wrapping around.
    pub fn prev_field(&mut self)
        requires
            old(self).focus < 5,
        ensures
            final(self).focus == ((old(self).focus + 4) % 5) as usize,
            final(self).fields == old(self).fields,
    {
        self.focus = (self.focus + 4) % 5;
    }

    /// Appends a character to the focused field.
    pub fn type_char(&mut self, c: char)
        requires
            old(self).focus < old(self).fields@.len(),
        ensures
            final(self).fields@.len() == old(self).fields@.len(),
            final(self).fields@[old(self).focus as int]@ == old(self).fields@[old(self).focus as int]@.push(c),
            forall|i: int|
                0 <= i < old(self).fields@.len() && i != old(self).focus ==> final(self).fields@[i] == old(self).fields@[i],
            final(self).focus == old(self).focus,
    {
        let mut s = self.fields[self.focus].clone();
        s.push(c);
        self.fields.set(self.focus, s);
    }

    /// Removes the focused field's last character.
    pub fn backspace(&mut self)
        requires
            old(self).focus < old(self).fields@.len(),
        ensures
            final(self).fields@.len() == old(self).fields@.len(),
            final(self).fields@[old(self).focus as int]@ == (if old(self).fields@[old(self).focus as int]@.len() > 0 {
                old(self).fields@[old(self).focus as int]@.drop_last()
            } else {
                old(self).fields@[old(self).focus as int]@
            }),
            forall|i: int|
                0 <= i < old(self).fields@.len() && i != old(self).focus ==> final(self).fields@[i] == old(self).fields@[i],
            final(self).focus == old(self).focus,
    {
        let cs = crate::strutil::str_chars(self.fields[self.focus].as_str());
        if cs.len() > 0 {
            let shorter = crate::strutil::slice_range(cs.as_slice(), 0, cs.len() - 1);
            let s = crate::strutil::string_of_chars(shorter.as_slice());
            proof {
                assert(s@ =~= old(self).fields@[old(self).focus as int]@.drop_last());
            }
            self.fields.set(self.focus, s);
        }
    }

    /// The trimmed subject field.
    pub fn subject(&self) -> (r: String)
        requires
            self.fields@.len() == 5,
        ensures
            r@ == crate::strutil::spec_trim(self.fields@[0]@),
    {
        trim_field(&self.fields[0])
    }

    /// The trimmed description field.
    pub fn description(&self) -> (r: String)
        requires
            self.fields@.len() == 5,
        ensures
            r@ == crate::strutil::spec_trim(self.fields@[1]@),
    {
        trim_field(&self.fields[1])
    }

    /// The priority the form's third field names.
    pub fn priority(&self) -> (r: crate::record::Priority)
        requires
            self.fields@.len() == 5,
        ensures
            r == crate::record::spec_priority_from(crate::strutil::spec_trim(self.fields@[2]@)),
    {
        let t = trim_field(&self.fields[2]);
        crate::record::Priority::from_str(t.as_str())
    }

    /// The trimmed type field.
    pub fn task_type(&self) -> (r: String)
        requires
            self.fields@.len() == 5,
        ensures
            r@ == crate::strutil::spec_trim(self.fields@[3]@),
    {
        trim_field(&self.fields[3])
    }

    /// The trimmed parent identifier field.
    pub fn parent_id(&self) -> (r: String)
        requires
            self.fields@.len() == 5,
        ensures
            r@ == crate::strutil::spec_trim(self.fields@[4]@),
    {
        trim_field(&self.fields[4])
    }
}

fn trim_field(s: &String) -> (r: String)
    ensures
        r@ == crate::strutil::spec_trim(s@),
{
    let cs = crate::strutil::str_chars(s.as_str());
    let t = crate::strutil::trim_chars(cs.as_slice());
    crate::strutil::string_of_chars(t.as_slice())
}

/// A request to edit a record in the external editor: the draft file, the
/// record and its partition.
pub struct EditorRequest {
    pub path: String,
    pub task_id: String,
    pub list_id: String,
}

/// The whole interactive state.
pub struct App {
    pub store: Store,
    pub active_list: String,
    pub task_lists: Vec<TaskList>,
    pub list_idx: usize,
    pub screen: Screen,
    pub prev_screen: Screen,
    pub list: ListState,
    pub detail: Option<DetailState>,
    pub status_picker: Option<StatusPickerState>,
    pub confirm: Option<ConfirmState>,
    pub create_form: Option<CreateState>,
    pub help_scroll: u16,
    pub status_msg: String,
    pub should_quit: bool,
    pub editor_request: Option<EditorRequest>,
    /// Store operations decided on but not yet carried out, oldest first.
    pub commands: Vec<Command>,
}

impl App {
    /// A fresh interface over the given store and records, on the list
    /// screen.
    pub fn new(store: Store, task_lists: Vec<TaskList>, tasks: Vec<Task>, active_list: String) -> (r:
        App)
        ensures
            r.screen == Screen::List,
            !r.should_quit,
            r.editor_request is None,
            r.commands@.len() == 0,
            r.active_list@ == active_list@,
    {
        let mut list_idx: usize = 0;
        let mut i: usize = 0;
        while i < task_lists.len()
            invariant
                i <= task_lists@.len(),
                list_idx < task_lists@.len() || list_idx == 0,
            decreases task_lists@.len() - i,
        {
            if str_eq(task_lists[i].id.as_str(), active_list.as_str()) {
                list_idx = i;
                break ;
            }
            i = i + 1;
        }
        App {
            store,
            active_list,
            task_lists,
            list_idx,
            screen: Screen::List,
            prev_screen: Screen::List,
            list: ListState::new(tasks),
            detail: None,
            status_picker: None,
            confirm: None,
            create_form: None,
            help_scroll: 0,
            status_msg: String::new(),
            should_quit: false,
            editor_request: None,
            commands: Vec::new(),
        }
    }

    /// The store root the filesystem watcher observes.
    pub fn tasks_base_path(&self) -> (r: &String)
        ensures
            r@ == self.store.base@,
    {
        self.store.tasks_base()
    }

    /// Replaces the loaded records with a fresh listing, keeping the view
    /// settings and restoring the selection by identifier.
    pub fn reload_tasks(&mut self, tasks: Vec<Task>)
        ensures
            final(self).list.tasks@ == tasks@,
            final(self).list.status_filter == old(self).list.status_filter,
            final(self).list.sort_order == old(self).list.sort_order,
            final(self).list.show_closed == old(self).list.show_closed,
            final(self).list.tree_view == old(self).list.tree_view,
            final(self).list.query@ == old(self).list.query@,
            final(self).list.filtered.deep_view() == crate::filter::spec_sort(
                old(self).list.sort_order,
                crate::filter::spec_filtered(
                    tasks.deep_view(),
                    old(self).list.status_filter,
                    old(self).list.show_closed,
                    old(self).list.query@,
                ),
            ),
            final(self).list.selected matches Some(i) ==> (i as int) < final(self).list.filtered@.len(),
            final(self).should_quit == old(self).should_quit,
            final(self).screen == old(self).screen,
    {
        let selected_id = self.list.selected_id();
        let mut fresh = ListState::new(tasks);
        fresh.status_filter = self.list.status_filter;
        fresh.sort_order = self.list.sort_order;
        fresh.show_closed = self.list.show_closed;
        fresh.tree_view = self.list.tree_view;
        fresh.query = self.list.query.clone();
        fresh.search_input = self.list.search_input.clone();
        fresh.collapsed = crate::codec::copy_strings(&self.list.collapsed);
        fresh.expanded_ids = crate::codec::copy_strings(&self.list.expanded_ids);
        fresh.rebuild();
        // Restore the selection by identifier.
        let ghost snap = fresh;
        match selected_id {
            Some(id) => {
                let mut i: usize = 0;
                while i < fresh.filtered.len()
                    invariant
                        i <= fresh.filtered@.len(),
                        fresh.tasks@ == snap.tasks@,
                        fresh.filtered@ == snap.filtered@,
                        fresh.status_filter == snap.status_filter,
                        fresh.sort_order == snap.sort_order,
                        fresh.show_closed == snap.show_closed,
                        fresh.tree_view == snap.tree_view,
                        fresh.query == snap.query,
                        fresh.selected matches Some(s) ==> (s as int) < fresh.filtered@.len(),
                    decreases fresh.filtered@.len() - i,
                {
                    if str_eq(fresh.filtered[i].id.as_str(), id.as_str()) {
                        fresh.selected = Some(i);
                        break ;
                    }
                    i = i + 1;
                }
            },
            None => {},
        }
        self.list = fresh;
    }

    /// Opens the detail screen over a loaded record, its children drawn
    /// from the loaded list.
    pub fn open_detail(&mut self, task: Task)
        ensures
            final(self).screen == Screen::Detail,
            final(self).detail matches Some(d) && d.task == task,
            final(self).should_quit == old(self).should_quit,
    {
        let children = children_of(&self.list.tasks, task.id.as_str());
        self.detail = Some(DetailState::new(task, children));
        self.screen = Screen::Detail;
    }

    /// Refreshes the open detail screen with a freshly loaded record.
    pub fn refresh_detail(&mut self, task: Task)
        ensures
            final(self).detail matches Some(d) && d.task == task,
            final(self).screen == old(self).screen,
    {
        let children = children_of(&self.list.tasks, task.id.as_str());
        self.detail = Some(DetailState::new(task, children));
    }

    /// Queues a status change for a record and notes it in the status line.
    pub fn change_status(&mut self, task_id: &str, new_status: Status)
        ensures
            final(self).commands@.len() == old(self).commands@.len() + 1,
            final(self).commands@.last() matches Command::SetStatus { task_id: t, status: s }
                && t@ == task_id@ && s@ == new_status@,
            final(self).should_quit == old(self).should_quit,
            final(self).screen == old(self).screen,
    {
        self.commands.push(
            Command::SetStatus { task_id: task_id.to_owned(), status: new_status },
        );
    }

    /// Queues a quick status change for the selected record, from the list
    /// or the detail screen.
    pub fn quick_status(&mut self, new_status: Status)
        ensures
            final(self).should_quit == old(self).should_quit,
            final(self).screen == old(self).screen,
            final(self).commands@.len() >= old(self).commands@.len(),
    {
        let task_id: Option<String> = match self.screen {
            Screen::List => self.list.selected_id(),
            Screen::Detail => match &self.detail {
                Some(d) => Some(d.task.id.clone()),
                None => None,
            },
            _ => None,
        };
        match task_id {
            Some(id) => {
                self.change_status(id.as_str(), new_status);
            },
            None => {},
        }
    }

    /// Opens the status picker for the selected record.
    pub fn open_status_picker(&mut self)
        ensures
            final(self).screen == Screen::Status || *final(self) == *old(self),
            final(self).should_quit == old(self).should_quit,
    {
        let picked: Option<(String, Status)> = match self.screen {
            Screen::List => match self.list.selected_task() {
                Some(t) => Some((t.id.clone(), crate::codec::copy_status(&t.status))),
                None => None,
            },
            Screen::Detail => match &self.detail {
                Some(d) => Some((d.task.id.clone(), crate::codec::copy_status(&d.task.status))),
                None => None,
            },
            _ => None,
        };
        match picked {
            Some((id, current)) => {
                self.prev_screen = self.screen;
                self.status_picker = Some(StatusPickerState::new(id, &current));
                self.screen = Screen::Status;
            },
            None => {},
        }
    }

    /// Opens the delete confirmation for the selected record.
    pub fn open_confirm(&mut self)
        ensures
            final(self).screen == Screen::Confirm || *final(self) == *old(self),
            final(self).should_quit == old(self).should_quit,
    {
        let task_id: Option<String> = match self.screen {
            Screen::List => self.list.selected_id(),
            Screen::Detail => match &self.detail {
                Some(d) => Some(d.task.id.clone()),
                None => None,
            },
            _ => None,
        };
        match task_id {
            Some(id) => {
                self.prev_screen = self.screen;
                self.confirm = Some(ConfirmState::new(id, "Delete"));
                self.screen = Screen::Confirm;
            },
            None => {},
        }
    }

    /// Requests an external edit of a loaded record: the draft text is the
    /// record's editable form, staged under a per-record temporary path.
    pub fn open_editor(&mut self, task: &Task)
        ensures
            final(self).editor_request matches Some(req) && req.task_id@ == task.id@ && req.list_id@
                == old(self).active_list@,
            final(self).prev_screen == old(self).screen,
            final(self).should_quit == old(self).should_quit,
    {
        let mut path = String::new();
        path.append("/tmp/ck-task-");
        path.append(task.id.as_str());
        path.append(".md");
        self.prev_screen = self.screen;
        self.editor_request = Some(
            EditorRequest {
                path,
                task_id: task.id.clone(),
                list_id: self.active_list.clone(),
            },
        );
    }

    /// The draft text staged for an external edit.
    pub fn editor_draft(&self, task: &Task) -> (r: String)
        ensures
            r@ == spec_marshal(task@),
    {
        marshal_task(task)
    }

    /// Merges an edited draft back over the freshly loaded original: the
    /// parsed record to save, or a message when the draft is rejected or
    /// the record could not be reloaded.
    pub fn handle_editor_result(&mut self, original: Option<&Task>, edited_text: Option<&str>) -> (r:
        Option<Task>)
        ensures
            final(self).screen == old(self).prev_screen,
            match (original, edited_text) {
                (Some(o), Some(text)) => (match r {
                    Some(t) => spec_unmarshal(text@, o@) == Some(t@),
                    None => spec_unmarshal(text@, o@) is None,
                }),
                _ => r is None,
            },
    {
        let out = match (original, edited_text) {
            (Some(o), Some(text)) => {
                match unmarshal_task(text, o) {
                    Ok(t) => {
                        self.status_msg = "Task updated".to_owned();
                        Some(t)
                    },
                    Err(_) => {
                        self.status_msg = "Parse: subject is required".to_owned();
                        None
                    },
                }
            },
            (None, _) => {
                self.status_msg = "Failed to reload task".to_owned();
                None
            },
            (Some(_), None) => {
                self.status_msg = "Read: editor draft missing".to_owned();
                None
            },
        };
        self.screen = self.prev_screen;
        out
    }

    /// Moves to the next known partition and queues a reload.
    pub fn cycle_task_list(&mut self)
        ensures
            old(self).task_lists@.len() > 1 ==> final(self).list_idx < old(self).task_lists@.len() && final(self).active_list@ == old(self).task_lists@[final(self).list_idx as int].id@ && (old(self).list_idx < old(self).task_lists@.len() - 1
                ==> final(self).list_idx == old(self).list_idx + 1),
            old(self).task_lists@.len() <= 1 ==> final(self).active_list == old(self).active_list,
            final(self).should_quit == old(self).should_quit,
    {
        if self.task_lists.len() <= 1 {
            self.status_msg = "No other task lists".to_owned();
            return ;
        }
        let n = self.task_lists.len();
        self.list_idx = if self.list_idx >= n - 1 {
            0
        } else {
            self.list_idx + 1
        };
        self.active_list = self.task_lists[self.list_idx].id.clone();
        self.commands.push(Command::Reload);
        self.status_msg = "List switched".to_owned();
    }

    /// Dispatches one key press to the screen that has the keyboard. The
    /// help toggle works from every screen except an active search; a quit
    /// key sets the quit flag and nothing else leaves the loop.
    pub fn handle_key(&mut self, key: KeyEvent)
        ensures
            old(self).screen != Screen::Help && key.key == Key::Char('?') && !old(self).list.searching ==> final(self).screen == Screen::Help && final(self).prev_screen
                == old(self).screen && !final(self).should_quit == !old(self).should_quit,
            old(self).screen == Screen::Help && key.key == Key::Char('q') ==> final(self).should_quit,
            old(self).screen == Screen::Help && (key.key == Key::Char('?') || key.key == Key::Esc)
                ==> final(self).screen == old(self).prev_screen,
    {
        self.status_msg = String::new();
        if matches!(key.key, Key::Char('?')) && !matches!(self.screen, Screen::Help)
            && !self.list.searching {
            self.prev_screen = self.screen;
            self.help_scroll = 0;
            self.screen = Screen::Help;
            return ;
        }
        if matches!(self.screen, Screen::Help) {
            match key.key {
                Key::Char(c) => {
                    if c == '?' {
                        self.screen = self.prev_screen;
                    } else if c == 'q' {
                        self.should_quit = true;
                    } else if c == 'j' {
                        if self.help_scroll < 0xffff {
                            self.help_scroll = self.help_scroll + 1;
                        }
                    } else if c == 'k' {
                        if self.help_scroll > 0 {
                            self.help_scroll = self.help_scroll - 1;
                        }
                    } else if c == 'g' {
                        self.help_scroll = 0;
                    } else if c == 'G' {
                        self.help_scroll = 0xffff;
                    }
                },
                Key::Esc => {
                    self.screen = self.prev_screen;
                },
                Key::Down => {
                    if self.help_scroll < 0xffff {
                        self.help_scroll = self.help_scroll + 1;
                    }
                },
                Key::Up => {
                    if self.help_scroll > 0 {
                        self.help_scroll = self.help_scroll - 1;
                    }
                },
                _ => {},
            }
            return ;
        }
        match self.screen {
            Screen::List => self.handle_list_key(key),
            Screen::Detail => self.handle_detail_key(key),
            Screen::Status => self.handle_status_key(key),
            Screen::Confirm => self.handle_confirm_key(key),
            Screen::Create => self.handle_create_key(key),
            Screen::Help => {},
        }
    }

    /// The list screen's keys: navigation, search, filtering, sorting, the
    /// tree view, quick status changes, creation, deletion and reload.
    pub fn handle_list_key(&mut self, key: KeyEvent)
        ensures
            !old(self).list.searching && !old(self).list.pending_z && key.key == Key::Char('q')
                ==> final(self).should_quit,
            !old(self).list.searching && !old(self).list.pending_z && key.ctrl && key.key
                == Key::Char('c') ==> final(self).should_quit,
            !old(self).list.searching && !old(self).list.pending_z && key.key == Key::Char('R')
                ==> final(self).commands@.len() > 0 && final(self).commands@.last() matches
                Command::Reload,
            old(self).list.searching && key.key == Key::Esc ==> !final(self).list.searching
                && final(self).list.query@.len() == 0,
            old(self).list.searching && key.key == Key::Enter ==> !final(self).list.searching,
    {
        if self.list.pending_z {
            self.list.pending_z = false;
            match key.key {
                Key::Char(c) => {
                    if c == 'M' {
                        // Collapse all: remember every parent identifier.
                        let mut parents: Vec<String> = Vec::new();
                        let mut i: usize = 0;
                        while i < self.list.tasks.len()
                            invariant
                                i <= self.list.tasks@.len(),
                            decreases self.list.tasks@.len() - i,
                        {
                            let t = &self.list.tasks[i];
                            if t.parent_id.as_str().unicode_len() > 0 {
                                if !contains_string(&parents, t.parent_id.as_str()) {
                                    parents.push(t.parent_id.clone());
                                }
                            }
                            i = i + 1;
                        }
                        self.list.collapsed = parents;
                        return ;
                    } else if c == 'R' {
                        self.list.collapsed = Vec::new();
                        return ;
                    }
                },
                _ => {},
            }
        }
        if self.list.searching {
            match key.key {
                Key::Esc => {
                    self.list.searching = false;
                    self.list.query = String::new();
                    self.list.search_input = String::new();
                    self.list.rebuild();
                },
                Key::Enter => {
                    self.list.searching = false;
                },
                Key::Backspace => {
                    let cs = crate::strutil::str_chars(self.list.search_input.as_str());
                    if cs.len() > 0 {
                        let shorter = crate::strutil::slice_range(cs.as_slice(), 0, cs.len() - 1);
                        self.list.search_input = crate::strutil::string_of_chars(
                            shorter.as_slice(),
                        );
                    }
                    self.list.query = self.list.search_input.clone();
                    self.list.rebuild();
                },
                Key::Char(c) => {
                    let mut s = self.list.search_input.clone();
                    s.push(c);
                    self.list.search_input = s;
                    self.list.query = self.list.search_input.clone();
                    self.list.rebuild();
                },
                _ => {},
            }
            return ;
        }
        match key.key {
            Key::Char(c) => {
                if key.ctrl && (c == 'q' || c == 'c') {
                    self.should_quit = true;
                } else if c == 'q' {
                    self.should_quit = true;
                } else if c == 'j' {
                    self.list.next();
                } else if c == 'k' {
                    self.list.prev();
                } else if c == '/' {
                    self.list.searching = true;
                    self.list.search_input = String::new();
                    self.list.query = String::new();
                } else if c == 'f' {
                    self.list.status_filter = self.list.status_filter.next();
                    self.list.rebuild();
                } else if c == 'o' {
                    self.list.sort_order = self.list.sort_order.next();
                    self.list.rebuild();
                } else if c == 'T' {
                    self.list.tree_view = !self.list.tree_view;
                } else if c == 'A' {
                    self.list.show_closed = !self.list.show_closed;
                    self.list.rebuild();
                } else if c == 'F' {
                    self.list.status_filter = StatusFilter::Active;
                    self.list.sort_order = SortOrder::Id;
                    self.list.show_closed = false;
                    self.list.tree_view = false;
                    self.list.query = String::new();
                    self.list.search_input = String::new();
                    self.list.rebuild();
                } else if c == 's' {
                    self.open_status_picker();
                } else if c == 'p' {
                    self.quick_status(Status::Pending);
                } else if c == 'a' {
                    self.quick_status(Status::InProgress);
                } else if c == 'd' {
                    self.quick_status(Status::Completed);
                } else if c == 'n' {
                    self.create_form = Some(CreateState::new());
                    self.screen = Screen::Create;
                } else if c == 'D' {
                    self.open_confirm();
                } else if c == 'R' {
                    self.commands.push(Command::Reload);
                } else if c == 'L' {
                    self.cycle_task_list();
                } else if c == 'z' {
                    if self.list.tree_view {
                        self.list.pending_z = true;
                    }
                } else if c == ' ' {
                    if self.list.tree_view {
                        self.toggle_collapsed();
                    }
                } else if c == '>' {
                    if self.list.tree_view {
                        self.remove_collapsed();
                    }
                } else if c == '<' {
                    if self.list.tree_view {
                        self.add_collapsed();
                    }
                } else if c == 'x' {
                    self.toggle_expanded();
                }
            },
            Key::Down => self.list.next(),
            Key::Up => self.list.prev(),
            // Opening the detail or the editor needs a fresh load; the
            // render loop intercepts those keys and answers with
            // `open_detail` or `open_editor`.
            _ => {},
        }
    }

    fn toggle_collapsed(&mut self) {
        match self.list.selected_id() {
            Some(id) => {
                if contains_string(&self.list.collapsed, id.as_str()) {
                    self.list.collapsed = remove_string(&self.list.collapsed, id.as_str());
                } else {
                    self.list.collapsed.push(id);
                }
            },
            None => {},
        }
    }

    fn remove_collapsed(&mut self) {
        match self.list.selected_id() {
            Some(id) => {
                self.list.collapsed = remove_string(&self.list.collapsed, id.as_str());
            },
            None => {},
        }
    }

    fn add_collapsed(&mut self) {
        match self.list.selected_id() {
            Some(id) => {
                if !contains_string(&self.list.collapsed, id.as_str()) {
                    self.list.collapsed.push(id);
                }
            },
            None => {},
        }
    }

    fn toggle_expanded(&mut self) {
        match self.list.selected_id() {
            Some(id) => {
                if contains_string(&self.list.expanded_ids, id.as_str()) {
                    self.list.expanded_ids = remove_string(&self.list.expanded_ids, id.as_str());
                } else {
                    self.list.expanded_ids.push(id);
                }
            },
            None => {},
        }
    }

    /// The detail screen's keys: scrolling, status, editing and deletion.
    pub fn handle_detail_key(&mut self, key: KeyEvent)
        ensures
            key.key == Key::Char('q') ==> final(self).should_quit,
            key.key == Key::Esc ==> final(self).screen == Screen::List,
    {
        match key.key {
            Key::Char(c) => {
                if c == 'q' {
                    self.should_quit = true;
                } else if c == 'j' {
                    match &mut self.detail {
                        Some(d) => d.scroll_down(),
                        None => {},
                    }
                } else if c == 'k' {
                    match &mut self.detail {
                        Some(d) => d.scroll_up(),
                        None => {},
                    }
                } else if c == ' ' {
                    match &mut self.detail {
                        Some(d) => d.page_down(10),
                        None => {},
                    }
                } else if c == 'b' {
                    match &mut self.detail {
                        Some(d) => d.page_up(10),
                        None => {},
                    }
                } else if c == 's' {
                    self.open_status_picker();
                } else if c == 'D' {
                    self.open_confirm();
                }
            },
            Key::Esc => {
                self.screen = Screen::List;
            },
            Key::Down => {
                match &mut self.detail {
                    Some(d) => d.scroll_down(),
                    None => {},
                }
            },
            Key::Up => {
                match &mut self.detail {
                    Some(d) => d.scroll_up(),
                    None => {},
                }
            },
            Key::PageDown => {
                match &mut self.detail {
                    Some(d) => d.page_down(10),
                    None => {},
                }
            },
            Key::PageUp => {
                match &mut self.detail {
                    Some(d) => d.page_up(10),
                    None => {},
                }
            },
            _ => {},
        }
    }

    /// The status picker's keys: choose a status or leave.
    pub fn handle_status_key(&mut self, key: KeyEvent)
        ensures
            key.key == Key::Char('q') ==> final(self).should_quit,
            key.key == Key::Esc ==> final(self).screen == old(self).prev_screen,
    {
        match key.key {
            Key::Char(c) => {
                if c == 'q' {
                    self.should_quit = true;
                } else if c == 'j' {
                    match &mut self.status_picker {
                        Some(sp) => {
                            if sp.options.len() > 0 {
                                sp.next();
                            }
                        },
                        None => {},
                    }
                } else if c == 'k' {
                    match &mut self.status_picker {
                        Some(sp) => sp.prev(),
                        None => {},
                    }
                }
            },
            Key::Down => {
                match &mut self.status_picker {
                    Some(sp) => {
                        if sp.options.len() > 0 {
                            sp.next();
                        }
                    },
                    None => {},
                }
            },
            Key::Up => {
                match &mut self.status_picker {
                    Some(sp) => sp.prev(),
                    None => {},
                }
            },
            Key::Enter => {
                let picked: Option<(String, Status)> = match &self.status_picker {
                    Some(sp) => {
                        if sp.cursor < sp.options.len() {
                            Some(
                                (
                                    sp.task_id.clone(),
                                    crate::codec::copy_status(&sp.options[sp.cursor]),
                                ),
                            )
                        } else {
                            None
                        }
                    },
                    None => None,
                };
                match picked {
                    Some((id, st)) => {
                        self.change_status(id.as_str(), st);
                        self.screen = self.prev_screen;
                    },
                    None => {},
                }
            },
            Key::Esc => {
                self.screen = self.prev_screen;
            },
            _ => {},
        }
    }

    /// The confirmation prompt's keys: confirm queues the deletion, anything
    /// else backs out.
    pub fn handle_confirm_key(&mut self, key: KeyEvent)
        ensures
            (key.key == Key::Char('y') || key.key == Key::Char('Y')) && old(self).confirm is Some ==> final(self).commands@.len() == old(self).commands@.len() + 1
                && final(self).screen == Screen::List,
            key.key == Key::Char('n') || key.key == Key::Char('N') || key.key == Key::Esc ==> final(self).screen == old(self).prev_screen,
    {
        match key.key {
            Key::Char(c) => {
                if c == 'y' || c == 'Y' {
                    match &self.confirm {
                        Some(cf) => {
                            self.commands.push(
                                Command::Delete { task_id: cf.task_id.clone() },
                            );
                        },
                        None => {},
                    }
                    self.screen = Screen::List;
                } else if c == 'n' || c == 'N' {
                    self.screen = self.prev_screen;
                }
            },
            Key::Esc => {
                self.screen = self.prev_screen;
            },
            _ => {},
        }
    }

    /// The creation form's keys: typing, field navigation, submit and
    /// cancel. Submitting with an empty subject is rejected; a valid draft
    /// queues the creation.
    pub fn handle_create_key(&mut self, key: KeyEvent)
        ensures
            key.key == Key::Esc ==> final(self).screen == Screen::List,
            key.ctrl && key.key == Key::Char('q') ==> final(self).should_quit,
    {
        if self.create_form.is_none() {
            if matches!(key.key, Key::Esc) {
                self.screen = Screen::List;
            } else if key.ctrl && matches!(key.key, Key::Char('q')) {
                self.should_quit = true;
            }
            return ;
        }
        match key.key {
            Key::Esc => {
                self.screen = Screen::List;
            },
            Key::Char(c) => {
                if key.ctrl && c == 'q' {
                    self.should_quit = true;
                } else if key.ctrl && c == 'd' {
                    self.submit_create();
                } else if !key.ctrl {
                    match &mut self.create_form {
                        Some(form) => {
                            if form.focus < form.fields.len() {
                                form.type_char(c);
                            }
                        },
                        None => {},
                    }
                }
            },
            Key::Tab | Key::Down => {
                match &mut self.create_form {
                    Some(form) => {
                        if form.focus < 5 {
                            form.next_field();
                        }
                    },
                    None => {},
                }
            },
            Key::BackTab | Key::Up => {
                match &mut self.create_form {
                    Some(form) => {
                        if form.focus < 5 {
                            form.prev_field();
                        }
                    },
                    None => {},
                }
            },
            Key::Backspace => {
                match &mut self.create_form {
                    Some(form) => {
                        if form.focus < form.fields.len() {
                            form.backspace();
                        }
                    },
                    None => {},
                }
            },
            _ => {},
        }
    }

    /// Submits the creation form: an empty subject is rejected with a
    /// message; otherwise a draft record with default status is queued for
    /// creation.
    fn submit_create(&mut self)
        ensures
            final(self).screen == Screen::List,
    {
        let draft: Option<Task> = match &self.create_form {
            Some(form) => {
                if form.fields.len() == 5 {
                    let subject = form.subject();
                    if subject.as_str().unicode_len() == 0 {
                        None
                    } else {
                        let mut t = Task::empty();
                        t.subject = subject;
                        t.description = form.description();
                        t.priority = form.priority();
                        t.task_type = form.task_type();
                        t.parent_id = form.parent_id();
                        Some(t)
                    }
                } else {
                    None
                }
            },
            None => None,
        };
        match draft {
            Some(t) => {
                self.commands.push(Command::CreateTask { draft: t });
            },
            None => {
                self.status_msg = "Subject is required".to_owned();
            },
        }
        self.screen = Screen::List;
    }
}

/// The loaded records whose parent pointer names the given identifier.
pub fn children_of(tasks: &Vec<Task>, parent_id: &str) -> (r: Vec<Task>)
    ensures
        forall|k: int|
            0 <= k < r@.len() ==> (#[trigger] r@[k]@).parent_id == parent_id@,
{
    let mut r: Vec<Task> = Vec::new();
    let mut i: usize = 0;
    while i < tasks.len()
        invariant
            i <= tasks@.len(),
            forall|k: int|
                0 <= k < r@.len() ==> (#[trigger] r@[k]@).parent_id == parent_id@,
        decreases tasks@.len() - i,
    {
        if str_eq(tasks[i].parent_id.as_str(), parent_id) {
            let copy = clone_task(&tasks[i]);
            proof {
                assert(copy@.parent_id == parent_id@);
            }
            r.push(copy);
        }
        i = i + 1;
    }
    r
}

fn contains_string(v: &Vec<String>, s: &str) -> (r: bool)
    ensures
        r == (exists|i: int| 0 <= i < v@.len() && (#[trigger] v@[i])@ == s@),
{
    let mut i: usize = 0;
    while i < v.len()
        invariant
            i <= v@.len(),
            forall|k: int| 0 <= k < i ==> (#[trigger] v@[k])@ != s@,
        decreases v@.len() - i,
    {
        if str_eq(v[i].as_str(), s) {
            return true;
        }
        i = i + 1;
    }
    false
}

fn remove_string(v: &Vec<String>, s: &str) -> (r: Vec<String>)
    ensures
        forall|k: int| 0 <= k < r@.len() ==> (#[trigger] r@[k])@ != s@,
{
    let mut r: Vec<String> = Vec::new();
    let mut i: usize = 0;
    while i < v.len()
        invariant
            i <= v@.len(),
            forall|k: int| 0 <= k < r@.len() ==> (#[trigger] r@[k])@ != s@,
        decreases v@.len() - i,
    {
        if !str_eq(v[i].as_str(), s) {
            r.push(v[i].clone());
        }
        i = i + 1;
    }
    r
}

} // verus!
