//! The configuration (elements and groups) and the decisions taken when
//! the status is refreshed against it.
use vstd::prelude::*;

use crate::elements::{kind_name_of, ElementConfig, ElementConfigView, ElementTypeView};
use crate::groups::{GroupConfig, GroupConfigView};
use crate::state::{started_record, FastUpState};

verus! {

/// The configuration of the application, as the configuration file defines it.
pub struct FastUpConfig {
    /// List of elements defined in the config file
    pub elements_config: Vec<ElementConfig>,
    /// List of groups defined in the config file
    pub groups_config: Vec<GroupConfig>,
}

/// The value of a `FastUpConfig`.
pub struct FastUpConfigView {
    pub elements: Seq<ElementConfigView>,
    pub groups: Seq<GroupConfigView>,
}

impl View for FastUpConfig {
    type V = FastUpConfigView;

    open spec fn view(&self) -> FastUpConfigView {
        FastUpConfigView {
            elements: self.elements_config@.map_values(|e: ElementConfig| e@),
            groups: self.groups_config@.map_values(|g: GroupConfig| g@),
        }
    }
}

/// `i` is the first position in `names` that holds `name`; `None` when no
/// position does.
pub open spec fn is_first_named(names: Seq<Seq<char>>, name: Seq<char>, r: Option<usize>) -> bool {
    match r {
        Some(i) => i < names.len() && names[i as int] == name && forall|j: int|
            0 <= j < i ==> #[trigger] names[j] != name,
        None => forall|j: int| 0 <= j < names.len() ==> #[trigger] names[j] != name,
    }
}

impl FastUpConfig {
    /// The position of the first element named `name`.
    pub fn find_element(&self, name: &str) -> (r: Option<usize>)
        ensures
            is_first_named(self@.elements.map_values(|e: ElementConfigView| e.name), name@, r),
    {
        let key = String::from_str(name);
        let ghost names = self@.elements.map_values(|e: ElementConfigView| e.name);
        let mut i: usize = 0;
        while i < self.elements_config.len()
            invariant
                i <= self.elements_config@.len(),
                names == self@.elements.map_values(|e: ElementConfigView| e.name),
                key@ == name@,
                forall|j: int| 0 <= j < i ==> #[trigger] names[j] != name@,
            decreases self.elements_config.len() - i,
        {
            if self.elements_config[i].name == key {
                return Some(i);
            }
            i = i + 1;
        }
        None
    }

    /// The position of the first group named `name`.
    pub fn find_group(&self, name: &str) -> (r: Option<usize>)
        ensures
            is_first_named(self@.groups.map_values(|g: GroupConfigView| g.name), name@, r),
    {
        let key = String::from_str(name);
        let ghost names = self@.groups.map_values(|g: GroupConfigView| g.name);
        let mut i: usize = 0;
        while i < self.groups_config.len()
            invariant
                i <= self.groups_config@.len(),
                names == self@.groups.map_values(|g: GroupConfigView| g.name),
                key@ == name@,
                forall|j: int| 0 <= j < i ==> #[trigger] names[j] != name@,
            decreases self.groups_config.len() - i,
        {
            if self.groups_config[i].name == key {
                return Some(i);
            }
            i = i + 1;
        }
        None
    }
}

/// What must be asked of the machine about an element whose port answers
/// but that the state does not record.
pub enum ExternalCheck {
    /// Nothing: the element is offline, or already recorded
    NotNeeded,
    /// Whether its system service is active
    ServiceActivity,
    /// Which process listens on its port
    ListeningProcess,
}

/// The check that refreshing the status makes for `element`, given whether
/// its port answered.
pub open spec fn external_check_for(
    m: Map<Seq<char>, crate::elements::ElementInfoView>,
    element: ElementConfigView,
    online: bool,
) -> ExternalCheck {
    if online && !m.contains_key(element.name) {
        match element.element_type {
            ElementTypeView::Service { .. } => ExternalCheck::ServiceActivity,
            ElementTypeView::Command { .. } => ExternalCheck::ListeningProcess,
        }
    } else {
        ExternalCheck::NotNeeded
    }
}

/// The process id recorded for an element found running outside FastUp:
/// none (0) for a service, else the listening process, or 0 if none was found.
pub open spec fn external_pid(element: ElementConfigView, listening_pid: Option<usize>) -> usize {
    match element.element_type {
        ElementTypeView::Service { .. } => 0,
        ElementTypeView::Command { .. } => match listening_pid {
            Some(p) => p,
            None => 0,
        },
    }
}

/// An element found running outside FastUp is recorded when a process id is
/// known for it, or when it is a service that systemd reports active.
pub open spec fn external_recorded(
    element: ElementConfigView,
    service_active: bool,
    listening_pid: Option<usize>,
) -> bool {
    external_pid(element, listening_pid) != 0 || (element.element_type is Service
        && service_active)
}

/// Decides what refreshing the status must find out about `element`, whose
/// port answered (`online`) or not.
pub fn external_check(state: &FastUpState, element: &ElementConfig, online: bool) -> (r:
    ExternalCheck)
    ensures
        r == external_check_for(state@, element@, online),
{
    if online && !state.contains_element(element.name.as_str()) {
        if element.element_type.is_service() {
            ExternalCheck::ServiceActivity
        } else {
            ExternalCheck::ListeningProcess
        }
    } else {
        ExternalCheck::NotNeeded
    }
}

/// Records an element found running outside FastUp, given what was found
/// out: whether its service is active (read for a service) and which process
/// listens on its port (read for a command). Returns whether it was recorded.
pub fn record_external(
    state: &mut FastUpState,
    element: &ElementConfig,
    service_active: bool,
    listening_pid: Option<usize>,
) -> (r: bool)
    ensures
        r == external_recorded(element@, service_active, listening_pid),
        r ==> final(state)@ == old(state)@.insert(
            element@.name,
            started_record(
                element@.name,
                external_pid(element@, listening_pid),
                kind_name_of(element@.element_type),
                false,
            ),
        ),
        !r ==> final(state)@ == old(state)@,
{
    let is_service = element.element_type.is_service();
    let mut active = false;
    let mut pid: usize = 0;
    if is_service {
        active = service_active;
    } else {
        pid = match listening_pid {
            Some(p) => p,
            None => 0,
        };
    }
    if pid != 0 || active {
        state.register_external_element(
            element.name.clone(),
            pid,
            element.element_type.kind_name(),
        );
        true
    } else {
        false
    }
}

/// Records an element that FastUp has just started: a command element with
/// the process id it was started as, a service with none (0).
pub fn record_started(state: &mut FastUpState, element: &ElementConfig, started_pid: u32)
    ensures
        final(state)@ == old(state)@.insert(
            element@.name,
            started_record(
                element@.name,
                if element@.element_type is Service {
                    0
                } else {
                    started_pid as usize
                },
                kind_name_of(element@.element_type),
                true,
            ),
        ),
{
    let pid: u32 = if element.element_type.is_service() {
        0
    } else {
        started_pid
    };
    state.register_element(element.name.clone(), pid, element.element_type.kind_name());
}

} // verus!

verus! {

/// Refreshing the status never asks about, and so never re-records, an
/// element that the state already records or whose port does not answer.
pub proof fn law_only_unknown_online_elements_are_checked(
    m: Map<Seq<char>, crate::elements::ElementInfoView>,
    element: ElementConfigView,
    online: bool,
)
    requires
        m.contains_key(element.name) || !online,
    ensures
        external_check_for(m, element, online) is NotNeeded,
{
}

/// An element found running outside FastUp is recorded as not started by
/// FastUp, under its own name, with the type word of its configuration.
pub proof fn law_external_records_are_marked(
    element: ElementConfigView,
    listening_pid: Option<usize>,
)
    ensures
        ({
            let rec = started_record(
                element.name,
                external_pid(element, listening_pid),
                kind_name_of(element.element_type),
                false,
            );
            &&& !rec.started_by_fastup
            &&& rec.name == element.name
            &&& element.element_type is Service ==> rec.pid == 0
        }),
{
}

} // verus!
