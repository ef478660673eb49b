//! The open request tabs of the API tester: creating, opening a saved
//! request, switching and closing, with the shown tab always one of them and
//! no saved request open twice.

use vstd::prelude::*;
use crate::api::{
    find_saved_tab, fresh_tab, holds_request, needs_fallback_name, saved_request_name, tab_after_close, OpenRequestTab,
    SavedApiRequest,
};

verus! {

/// No saved request is open in two tabs.
pub open spec fn distinct_saved(tabs: Seq<OpenRequestTab>) -> bool {
    forall|i: int, j: int|
        0 <= i < j < tabs.len() && (#[trigger] tabs[i]).saved_request_id is Some
            ==> tabs[i].saved_request_id != (#[trigger] tabs[j]).saved_request_id
}

/// Whether some tab holds the saved request `id`.
pub open spec fn holds_saved(tabs: Seq<OpenRequestTab>, id: i64) -> bool {
    exists|k: int| 0 <= k < tabs.len() && (#[trigger] tabs[k]).saved_request_id == Some(id)
}

/// The open tabs and the one shown.
pub struct RequestTabs {
    pub tabs: Vec<OpenRequestTab>,
    pub active: usize,
}

impl RequestTabs {
    /// At least one tab is open, the shown one among them, and no saved
    /// request is open twice.
    pub open spec fn wf(&self) -> bool {
        &&& self.tabs@.len() > 0
        &&& self.active < self.tabs@.len()
        &&& distinct_saved(self.tabs@)
    }

    /// One tab holding a new request.
    pub fn new() -> (r: Self)
        ensures
            r.wf(),
            r.tabs@.len() == 1,
            r.active == 0,
            fresh_tab(r.tabs@[0]),
    {
        RequestTabs { tabs: vec![OpenRequestTab::new()], active: 0 }
    }

    /// Opens a tab with a new request and shows it.
    pub fn create_tab(&mut self)
        requires
            old(self).wf(),
            old(self).tabs@.len() < usize::MAX,
        ensures
            final(self).wf(),
            final(self).tabs@.drop_last() == old(self).tabs@,
            fresh_tab(final(self).tabs@.last()),
            final(self).active == final(self).tabs@.len() - 1,
    {
        let ghost before = self.tabs@;
        self.tabs.push(OpenRequestTab::new());
        self.active = self.tabs.len() - 1;
        proof {
            let t = self.tabs@;
            assert(t.drop_last() =~= before);
            assert forall|i: int, j: int|
                0 <= i < j < t.len() && (#[trigger] t[i]).saved_request_id is Some implies t[i].saved_request_id
                    != (#[trigger] t[j]).saved_request_id by {
                if j < before.len() {
                    assert(t[i] == before[i] && t[j] == before[j]);
                }
            }
        }
    }

    /// Shows the saved request: the tab already holding it, or a new tab
    /// holding it.
    pub fn open_saved(&mut self, request: SavedApiRequest)
        requires
            old(self).wf(),
            old(self).tabs@.len() < usize::MAX,
        ensures
            final(self).wf(),
            holds_saved(old(self).tabs@, request.id) ==> final(self).tabs@ == old(self).tabs@
                && final(self).tabs@[final(self).active as int].saved_request_id == Some(request.id),
            !holds_saved(old(self).tabs@, request.id) ==> final(self).tabs@.drop_last() == old(self).tabs@
                && holds_request(final(self).tabs@.last(), request)
                && final(self).active == final(self).tabs@.len() - 1,
    {
        let id = request.id;
        match find_saved_tab(&self.tabs, id) {
            Some(i) => {
                self.active = i;
            },
            None => {
                let ghost before = self.tabs@;
                self.tabs.push(OpenRequestTab::from_saved_request(request));
                self.active = self.tabs.len() - 1;
                proof {
                    let t = self.tabs@;
                    assert(t.drop_last() =~= before);
                    assert forall|i: int, j: int|
                        0 <= i < j < t.len() && (#[trigger] t[i]).saved_request_id is Some implies t[i].saved_request_id
                            != (#[trigger] t[j]).saved_request_id by {
                        assert(t[i] == before[i]);
                        if j < before.len() {
                            assert(t[j] == before[j]);
                        }
                    }
                    if holds_saved(before, id) {
                        let k = choose|k: int| 0 <= k < before.len() && (#[trigger] before[k]).saved_request_id == Some(id);
                        assert(before[k].saved_request_id != Some(id));
                    }
                }
            },
        }
    }

    /// Shows tab `index`, when there is one.
    pub fn activate(&mut self, index: usize)
        requires
            old(self).wf(),
        ensures
            final(self).wf(),
            final(self).tabs == old(self).tabs,
            final(self).active == if index < old(self).tabs@.len() { index } else { old(self).active },
    {
        if index < self.tabs.len() {
            self.active = index;
        }
    }

    /// Closes tab `index`, when there is one. The shown tab stays shown,
    /// moving down when a tab before it closed; when it closes itself, the tab
    /// now at its place, or the last one, is shown. Closing the last tab
    /// leaves a tab with a new request.
    pub fn close(&mut self, index: usize)
        requires
            old(self).wf(),
        ensures
            final(self).wf(),
            index >= old(self).tabs@.len() ==> final(self).tabs == old(self).tabs && final(self).active == old(self).active,
            index < old(self).tabs@.len() && old(self).tabs@.len() == 1 ==> final(self).tabs@.len() == 1
                && fresh_tab(final(self).tabs@[0]) && final(self).active == 0,
            index < old(self).tabs@.len() && old(self).tabs@.len() > 1 ==> final(self).tabs@ == old(self).tabs@.remove(
                index as int,
            ) && final(self).active == (if index < old(self).active {
                old(self).active - 1
            } else if index == old(self).active {
                if old(self).active < old(self).tabs@.len() - 2 { old(self).active as int } else { old(self).tabs@.len() - 2 }
            } else {
                old(self).active as int
            }),
    {
        if index >= self.tabs.len() {
            return;
        }
        let ghost before = self.tabs@;
        self.tabs.remove(index);
        if self.tabs.len() == 0 {
            self.tabs.push(OpenRequestTab::new());
            self.active = 0;
            return;
        }
        let remaining = self.tabs.len();
        self.active = tab_after_close(index, self.active, remaining);
        proof {
            let t = self.tabs@;
            assert(t == before.remove(index as int));
            assert forall|i: int, j: int|
                0 <= i < j < t.len() && (#[trigger] t[i]).saved_request_id is Some implies t[i].saved_request_id
                    != (#[trigger] t[j]).saved_request_id by {
                let bi = if i < index { i } else { i + 1 };
                let bj = if j < index { j } else { j + 1 };
                assert(t[i] == before[bi]);
                assert(t[j] == before[bj]);
            }
        }
    }
}

/// Where the request of a tab is saved.
#[derive(Debug, Clone, Copy, PartialEq, Eq)]
pub enum SaveTarget {
    /// The saved request `id` is updated, staying in its collection.
    Update { id: i64, collection_id: Option<i64> },
    /// A new saved request is inserted into the collection.
    Insert { collection_id: Option<i64> },
}

/// How the request of a tab is saved, and under which name: a request
/// already saved is updated in its own collection, a new one is inserted
/// into the selected collection; the name is the one of
/// [`saved_request_name`].
pub fn save_plan(tab: &OpenRequestTab, selected_collection_id: Option<i64>) -> (r: (SaveTarget, String))
    ensures
        r.0 == match tab.saved_request_id {
            Some(id) => SaveTarget::Update { id, collection_id: tab.collection_id },
            None => SaveTarget::Insert { collection_id: selected_collection_id },
        },
        r.1@ == if needs_fallback_name(tab.request.name@, tab.is_default_name) {
            if tab.request.url@.len() == 0 { "未命名请求"@ } else { tab.request.url@ }
        } else {
            crate::text::trim(tab.request.name@)
        },
{
    let name = saved_request_name(&tab.request, tab.is_default_name);
    let target = match tab.saved_request_id {
        Some(id) => SaveTarget::Update { id, collection_id: tab.collection_id },
        None => SaveTarget::Insert { collection_id: selected_collection_id },
    };
    (target, name)
}

/// Records a successful save in the tab: it carries the name it was saved
/// under, which is no longer the default one, and, when it was inserted, the
/// new id and its collection.
pub fn record_save(tab: &mut OpenRequestTab, name: String, inserted: Option<(i64, Option<i64>)>)
    ensures
        final(tab).request.name == name,
        !final(tab).is_default_name,
        match inserted {
            Some((id, c)) => final(tab).saved_request_id == Some(id) && final(tab).collection_id == c,
            None => final(tab).saved_request_id == old(tab).saved_request_id
                && final(tab).collection_id == old(tab).collection_id,
        },
        final(tab).request.id == old(tab).request.id,
        final(tab).request.method == old(tab).request.method,
        final(tab).request.url == old(tab).request.url,
        final(tab).request.headers == old(tab).request.headers,
        final(tab).request.params == old(tab).request.params,
        final(tab).request.body_type == old(tab).request.body_type,
        final(tab).request.body == old(tab).request.body,
        final(tab).response == old(tab).response,
        final(tab).headers == old(tab).headers,
        final(tab).params == old(tab).params,
        final(tab).body_type == old(tab).body_type,
        final(tab).body == old(tab).body,
        final(tab).request_tab == old(tab).request_tab,
        final(tab).response_tab == old(tab).response_tab,
        final(tab).is_sending == old(tab).is_sending,
{
    tab.request.name = name;
    tab.is_default_name = false;
    if let Some((id, c)) = inserted {
        tab.saved_request_id = Some(id);
        tab.collection_id = c;
    }
}

} // verus!
