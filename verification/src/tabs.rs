//! Ordered registry of open documents ("tabs").
//!
//! `TabManager` owns the tabs in insertion order, tracks the active tab, and
//! resolves which neighbour becomes active when the active tab is closed:
//! the tab after the closed one, else the tab before it, else none.
//! `TabOrder` is the standalone ordered-id list with the same adjacency
//! tie-break, and `TabCreateRequest` the builder that new-tab commands carry.

use vstd::prelude::*;

use crate::content::Content;
use crate::playback::{WPM_DEFAULT, WPM_MAX, WPM_MIN};

verus! {

pub type TabId = u64;

/// Default font size in tenths of a point.
pub const FONT_SIZE_DEFAULT_TENTHS: u32 = 480;

/// One open document: its content and cursor, display preferences, an
/// optional source path, and a stable identifier. A non-reader "home" tab
/// carries empty content and never participates in playback.
pub struct Tab {
    pub id: TabId,
    pub name: String,
    pub content: Content,
    pub font_name: String,
    /// Font size in tenths of a point, so preferences stay exact integers.
    pub font_size_tenths: u32,
    pub wpm: u32,
    pub file_path: Option<String>,
    pub is_reader_tab: bool,
}

impl Tab {
    pub open spec fn wf(&self) -> bool {
        &&& self.content.wf()
        &&& WPM_MIN <= self.wpm <= WPM_MAX
    }
}

/// True when some tab in `s` has identifier `id`.
pub open spec fn has_tab(s: Seq<Tab>, id: TabId) -> bool {
    exists|i: int| 0 <= i < s.len() && (#[trigger] s[i]).id == id
}

/// Position of the first tab with identifier `id`, or -1 if there is none.
pub open spec fn tab_position(s: Seq<Tab>, id: TabId) -> int
    decreases s.len(),
{
    if s.len() == 0 {
        -1
    } else if s[0].id == id {
        0
    } else {
        let rest = tab_position(s.drop_first(), id);
        if rest < 0 {
            -1
        } else {
            rest + 1
        }
    }
}

/// Links `tab_position` to membership: a non-negative position is in range
/// and holds the identifier, and everything before it does not.
pub proof fn lemma_tab_position(s: Seq<Tab>, id: TabId)
    ensures
        has_tab(s, id) <==> tab_position(s, id) >= 0,
        tab_position(s, id) >= 0 ==> tab_position(s, id) < s.len() && s[tab_position(s, id)].id
            == id,
        forall|j: int| 0 <= j < tab_position(s, id) ==> (#[trigger] s[j]).id != id,
    decreases s.len(),
{
    if s.len() > 0 {
        lemma_tab_position(s.drop_first(), id);
        assert(forall|j: int|
            1 <= j < s.len() ==> #[trigger] s[j] == s.drop_first()[j - 1]);
        if s[0].id != id && has_tab(s, id) {
            let w = choose|i: int| 0 <= i < s.len() && (#[trigger] s[i]).id == id;
            assert(s.drop_first()[w - 1].id == id);
        }
    }
}

/// Defaults applied to newly created tabs and used by "apply to all tabs".
pub struct DefaultTabSettings {
    pub font_name: String,
    pub font_size_tenths: u32,
    pub wpm: u32,
}

impl DefaultTabSettings {
    pub open spec fn wf(&self) -> bool {
        WPM_MIN <= self.wpm <= WPM_MAX
    }
}

impl Default for DefaultTabSettings {
    fn default() -> (d: DefaultTabSettings)
        ensures
            d.font_name@.len() == 0,
            d.font_size_tenths == FONT_SIZE_DEFAULT_TENTHS,
            d.wpm == WPM_DEFAULT,
            d.wf(),
    {
        DefaultTabSettings {
            font_name: String::new(),
            font_size_tenths: FONT_SIZE_DEFAULT_TENTHS,
            wpm: WPM_DEFAULT,
        }
    }
}

/// Builder carried by a create-tab command. Optional fields fall back to
/// `DefaultTabSettings` when the request is applied.
pub struct TabCreateRequest {
    pub name: String,
    pub content: Content,
    pub file_path: Option<String>,
    pub font_name: Option<String>,
    pub font_size_tenths: Option<u32>,
    pub wpm: Option<u32>,
    pub is_active: bool,
}

impl TabCreateRequest {
    pub open spec fn wf(&self) -> bool {
        &&& self.content.wf()
        &&& self.wpm matches Some(w) ==> WPM_MIN <= w <= WPM_MAX
    }

    pub fn new(name: String, content: Content) -> (r: TabCreateRequest)
        ensures
            r == (TabCreateRequest {
                name: name,
                content: content,
                file_path: None::<String>,
                font_name: None::<String>,
                font_size_tenths: None::<u32>,
                wpm: None::<u32>,
                is_active: true,
            }),
    {
        TabCreateRequest {
            name,
            content,
            file_path: None,
            font_name: None,
            font_size_tenths: None,
            wpm: None,
            is_active: true,
        }
    }

    pub fn with_file_path(self, path: String) -> (r: TabCreateRequest)
        ensures
            r == (TabCreateRequest { file_path: Some(path), ..self }),
    {
        TabCreateRequest { file_path: Some(path), ..self }
    }

    pub fn with_font(self, name: String, size_tenths: u32) -> (r: TabCreateRequest)
        ensures
            r == (TabCreateRequest {
                font_name: Some(name),
                font_size_tenths: Some(size_tenths),
                ..self
            }),
    {
        TabCreateRequest { font_name: Some(name), font_size_tenths: Some(size_tenths), ..self }
    }

    pub fn with_wpm(self, wpm: u32) -> (r: TabCreateRequest)
        ensures
            r == (TabCreateRequest { wpm: Some(wpm), ..self }),
    {
        TabCreateRequest { wpm: Some(wpm), ..self }
    }

    pub fn with_active(self, active: bool) -> (r: TabCreateRequest)
        ensures
            r == (TabCreateRequest { is_active: active, ..self }),
    {
        TabCreateRequest { is_active: active, ..self }
    }
}

/// Ordered collection of tabs plus the active-tab reference. Insertion order
/// is stable; identifiers are unique and minted from `next_id`.
pub struct TabManager {
    pub tabs: Vec<Tab>,
    pub active_id: Option<TabId>,
    pub next_id: TabId,
    pub last_synced_id: Option<TabId>,
}

impl Default for TabManager {
    fn default() -> (m: TabManager)
        ensures
            m.wf(),
            m.tabs@.len() == 0,
            m.active_id is None,
            m.next_id == 1,
            m.last_synced_id is None,
    {
        TabManager { tabs: Vec::new(), active_id: None, next_id: 1, last_synced_id: None }
    }
}

impl TabManager {
    /// Registry invariant: identifiers are unique and below `next_id`, every
    /// tab is well formed, and the active reference (if present) points at a
    /// tab currently in the collection.
    pub open spec fn wf(&self) -> bool {
        &&& forall|i: int, j: int|
            0 <= i < j < self.tabs@.len() ==> (#[trigger] self.tabs@[i]).id != (
            #[trigger] self.tabs@[j]).id
        &&& forall|i: int| 0 <= i < self.tabs@.len() ==> (#[trigger] self.tabs@[i]).id < self.next_id
        &&& forall|i: int| 0 <= i < self.tabs@.len() ==> (#[trigger] self.tabs@[i]).wf()
        &&& self.active_id matches Some(id) ==> has_tab(self.tabs@, id)
        &&& self.next_id >= 1
    }

    /// Read-only view of the tabs in insertion order, for tab-strip display.
    pub fn tabs(&self) -> (r: &Vec<Tab>)
        ensures
            *r == self.tabs,
    {
        &self.tabs
    }

    pub fn active_id(&self) -> (r: Option<TabId>)
        ensures
            r == self.active_id,
    {
        self.active_id
    }

    pub fn last_synced_id(&self) -> (r: Option<TabId>)
        ensures
            r == self.last_synced_id,
    {
        self.last_synced_id
    }

    pub fn set_last_synced(&mut self, id: Option<TabId>)
        ensures
            *final(self) == (TabManager { last_synced_id: id, ..*old(self) }),
    {
        self.last_synced_id = id;
    }

    /// Position of the tab with the given identifier, if present.
    pub fn position_of(&self, id: TabId) -> (r: Option<usize>)
        ensures
            (r is Some) <==> has_tab(self.tabs@, id),
            r matches Some(i) ==> i == tab_position(self.tabs@, id),
    {
        let n = self.tabs.len();
        let mut i: usize = 0;
        while i < n
            invariant
                i <= n,
                n == self.tabs@.len(),
                forall|j: int| 0 <= j < i ==> (#[trigger] self.tabs@[j]).id != id,
            decreases n - i,
        {
            if self.tabs[i].id == id {
                proof {
                    lemma_tab_position_first(self.tabs@, id, i as int);
                }
                return Some(i);
            }
            i = i + 1;
        }
        proof {
            lemma_tab_position(self.tabs@, id);
        }
        None
    }

    /// Activates the tab with the given identifier; no-op when absent.
    pub fn set_active(&mut self, id: TabId)
        requires
            old(self).wf(),
        ensures
            final(self).wf(),
            has_tab(old(self).tabs@, id) ==> *final(self) == (TabManager {
                active_id: Some(id),
                ..*old(self)
            }),
            !has_tab(old(self).tabs@, id) ==> *final(self) == *old(self),
    {
        if self.position_of(id).is_some() {
            self.active_id = Some(id);
        }
    }

    /// The active tab, if one is set. Under the registry invariant an active
    /// reference always resolves.
    pub fn active_tab(&self) -> (r: Option<&Tab>)
        requires
            self.wf(),
        ensures
            self.active_id is None ==> r is None,
            self.active_id matches Some(id) ==> (r matches Some(t) && t.id == id && *t
                == self.tabs@[tab_position(self.tabs@, id)]),
    {
        match self.active_id {
            None => None,
            Some(id) => {
                proof {
                    lemma_tab_position(self.tabs@, id);
                }
                match self.position_of(id) {
                    Some(pos) => Some(&self.tabs[pos]),
                    None => {
                        proof {
                            assert(has_tab(self.tabs@, id));
                        }
                        None
                    },
                }
            },
        }
    }

    /// Appends a new reader tab with a freshly minted identifier; optionally
    /// activates it, deactivating the previous active tab.
    pub fn add_tab(
        &mut self,
        name: String,
        file_path: Option<String>,
        content: Content,
        font_name: String,
        font_size_tenths: u32,
        wpm: u32,
        make_active: bool,
    ) -> (id: TabId)
        requires
            old(self).wf(),
            old(self).next_id < u64::MAX,
            content.wf(),
            WPM_MIN <= wpm <= WPM_MAX,
        ensures
            final(self).wf(),
            id == old(self).next_id,
            final(self).tabs@ == old(self).tabs@.push(
                (Tab {
                    id: old(self).next_id,
                    name: name,
                    content: content,
                    font_name: font_name,
                    font_size_tenths: font_size_tenths,
                    wpm: wpm,
                    file_path: file_path,
                    is_reader_tab: true,
                }),
            ),
            final(self).next_id == old(self).next_id + 1,
            final(self).last_synced_id == old(self).last_synced_id,
            make_active ==> final(self).active_id == Some(id),
            !make_active ==> final(self).active_id == old(self).active_id,
    {
        let id = self.next_id;
        self.next_id = self.next_id + 1;
        self.tabs.push(
            Tab {
                id,
                name,
                content,
                font_name,
                font_size_tenths,
                wpm,
                file_path,
                is_reader_tab: true,
            },
        );
        if make_active {
            self.active_id = Some(id);
        }
        proof {
            let tabs = self.tabs@;
            let n = tabs.len() - 1;
            assert(tabs[n].id == id);
            if !make_active {
                if let Some(aid) = self.active_id {
                    let w = choose|i: int|
                        0 <= i < old(self).tabs@.len() && (#[trigger] old(self).tabs@[i]).id
                            == aid;
                    assert(tabs[w].id == aid);
                }
            }
        }
        id
    }

    /// Appends the designated non-reader "home" tab: empty content, default
    /// preferences, never part of playback or persistence.
    pub fn add_home_tab(&mut self, name: String) -> (id: TabId)
        requires
            old(self).wf(),
            old(self).next_id < u64::MAX,
        ensures
            final(self).wf(),
            id == old(self).next_id,
            final(self).tabs@.len() == old(self).tabs@.len() + 1,
            final(self).tabs@.subrange(0, old(self).tabs@.len() as int) == old(self).tabs@,
            final(self).tabs@.last().id == id,
            !final(self).tabs@.last().is_reader_tab,
            final(self).tabs@.last().name == name,
            final(self).tabs@.last().content.words@.len() == 0,
            final(self).next_id == old(self).next_id + 1,
            final(self).active_id == Some(id),
            final(self).last_synced_id == old(self).last_synced_id,
    {
        let id = self.next_id;
        self.next_id = self.next_id + 1;
        self.tabs.push(
            Tab {
                id,
                name,
                content: Content::new(String::new(), Vec::new()),
                font_name: String::new(),
                font_size_tenths: FONT_SIZE_DEFAULT_TENTHS,
                wpm: WPM_DEFAULT,
                file_path: None,
                is_reader_tab: false,
            },
        );
        self.active_id = Some(id);
        proof {
            let tabs = self.tabs@;
            let n = tabs.len() - 1;
            assert(tabs[n].id == id);
            assert(tabs.subrange(0, n as int) =~= old(self).tabs@);
        }
        id
    }

    /// Applies a create request, filling unset preferences from the defaults.
    pub fn create_tab(&mut self, request: TabCreateRequest, defaults: &DefaultTabSettings) -> (id:
        TabId)
        requires
            old(self).wf(),
            old(self).next_id < u64::MAX,
            request.wf(),
            defaults.wf(),
        ensures
            final(self).wf(),
            id == old(self).next_id,
            final(self).tabs@ == old(self).tabs@.push(
                (Tab {
                    id: old(self).next_id,
                    name: request.name,
                    content: request.content,
                    font_name: if request.font_name is Some {
                        request.font_name.unwrap()
                    } else {
                        defaults.font_name
                    },
                    font_size_tenths: if request.font_size_tenths is Some {
                        request.font_size_tenths.unwrap()
                    } else {
                        defaults.font_size_tenths
                    },
                    wpm: if request.wpm is Some {
                        request.wpm.unwrap()
                    } else {
                        defaults.wpm
                    },
                    file_path: request.file_path,
                    is_reader_tab: true,
                }),
            ),
            final(self).next_id == old(self).next_id + 1,
            final(self).last_synced_id == old(self).last_synced_id,
            request.is_active ==> final(self).active_id == Some(id),
            !request.is_active ==> final(self).active_id == old(self).active_id,
    {
        let font_name = match request.font_name {
            Some(f) => f,
            None => defaults.font_name.clone(),
        };
        let font_size_tenths = match request.font_size_tenths {
            Some(s) => s,
            None => defaults.font_size_tenths,
        };
        let wpm = match request.wpm {
            Some(w) => w,
            None => defaults.wpm,
        };
        self.add_tab(
            request.name,
            request.file_path,
            request.content,
            font_name,
            font_size_tenths,
            wpm,
            request.is_active,
        )
    }

    /// Removes the tab with the given identifier. If it was active, the tab
    /// after it in order becomes active, else the tab before it, else none;
    /// closing a non-active tab never changes the active tab. Returns the
    /// cache identifier of a removed reader tab so the caller can delete its
    /// cache entry; closing a tab with an unknown identifier is a no-op.
    pub fn close_tab(&mut self, id: TabId) -> (removed_cache: Option<String>)
        requires
            old(self).wf(),
        ensures
            final(self).wf(),
            !has_tab(old(self).tabs@, id) ==> *final(self) == *old(self) && removed_cache is None,
            has_tab(old(self).tabs@, id) ==> ({
                let pos = tab_position(old(self).tabs@, id);
                &&& final(self).tabs@ == old(self).tabs@.remove(pos)
                &&& final(self).next_id == old(self).next_id
                &&& final(self).last_synced_id == old(self).last_synced_id
                &&& (old(self).active_id != Some(id) ==> final(self).active_id == old(
                    self,
                ).active_id)
                &&& (old(self).active_id == Some(id) ==> final(self).active_id == (
                if old(self).tabs@.len() == 1 {
                    None::<TabId>
                } else if pos < old(self).tabs@.len() - 1 {
                    Some(old(self).tabs@[pos + 1].id)
                } else {
                    Some(old(self).tabs@[pos - 1].id)
                }))
                &&& (old(self).tabs@[pos].is_reader_tab ==> (removed_cache matches Some(c) && c
                    == old(self).tabs@[pos].content.content_cache_id))
                &&& (!old(self).tabs@[pos].is_reader_tab ==> removed_cache is None)
            }),
    {
        proof {
            lemma_tab_position(self.tabs@, id);
        }
        let pos = match self.position_of(id) {
            Some(p) => p,
            None => {
                return None;
            },
        };
        let was_active = match self.active_id {
            Some(a) => a == id,
            None => false,
        };
        let removed = self.tabs.remove(pos);
        if was_active {
            if self.tabs.len() == 0 {
                self.active_id = None;
            } else {
                let p = if pos < self.tabs.len() {
                    pos
                } else {
                    self.tabs.len() - 1
                };
                self.active_id = Some(self.tabs[p].id);
            }
        }
        proof {
            let old_tabs = old(self).tabs@;
            let new_tabs = self.tabs@;
            let posi = pos as int;
            assert(forall|j: int| 0 <= j < posi ==> new_tabs[j] == old_tabs[j]);
            assert(forall|j: int|
                posi <= j < new_tabs.len() ==> #[trigger] new_tabs[j] == old_tabs[j + 1]);
            if !was_active {
                if let Some(aid) = old(self).active_id {
                    let w = choose|i: int|
                        0 <= i < old_tabs.len() && (#[trigger] old_tabs[i]).id == aid;
                    if w < posi {
                        assert(new_tabs[w].id == aid);
                    } else {
                        assert(new_tabs[w - 1].id == aid);
                    }
                }
            } else {
                if let Some(aid) = self.active_id {
                    assert(has_tab(new_tabs, aid));
                }
            }
        }
        if removed.is_reader_tab {
            Some(removed.content.content_cache_id)
        } else {
            None
        }
    }

    /// Overwrites font and rate preferences on every reader tab with the
    /// given defaults; non-reader tabs are untouched.
    pub fn apply_defaults_to_all(&mut self, defaults: &DefaultTabSettings)
        requires
            old(self).wf(),
            defaults.wf(),
        ensures
            final(self).wf(),
            final(self).tabs@.len() == old(self).tabs@.len(),
            final(self).active_id == old(self).active_id,
            final(self).next_id == old(self).next_id,
            final(self).last_synced_id == old(self).last_synced_id,
            forall|i: int|
                0 <= i < old(self).tabs@.len() && !(#[trigger] old(self).tabs@[i]).is_reader_tab
                    ==> final(self).tabs@[i] == old(self).tabs@[i],
            forall|i: int|
                0 <= i < old(self).tabs@.len() && (#[trigger] old(self).tabs@[i]).is_reader_tab
                    ==> final(self).tabs@[i] == (Tab {
                    font_name: defaults.font_name,
                    font_size_tenths: defaults.font_size_tenths,
                    wpm: defaults.wpm,
                    ..old(self).tabs@[i]
                }),
    {
        let n = self.tabs.len();
        let mut i: usize = 0;
        while i < n
            invariant
                i <= n,
                n == self.tabs@.len(),
                self.tabs@.len() == old(self).tabs@.len(),
                self.active_id == old(self).active_id,
                self.next_id == old(self).next_id,
                self.last_synced_id == old(self).last_synced_id,
                defaults.wf(),
                forall|j: int| i <= j < n ==> #[trigger] self.tabs@[j] == old(self).tabs@[j],
                forall|j: int|
                    0 <= j < i && !(#[trigger] old(self).tabs@[j]).is_reader_tab ==> self.tabs@[j]
                        == old(self).tabs@[j],
                forall|j: int|
                    0 <= j < i && (#[trigger] old(self).tabs@[j]).is_reader_tab ==> self.tabs@[j]
                        == (Tab {
                        font_name: defaults.font_name,
                        font_size_tenths: defaults.font_size_tenths,
                        wpm: defaults.wpm,
                        ..old(self).tabs@[j]
                    }),
                forall|j: int|
                    0 <= j < n ==> (#[trigger] self.tabs@[j]).id == old(self).tabs@[j].id,
                forall|j: int| 0 <= j < n ==> (#[trigger] self.tabs@[j]).wf(),
            decreases n - i,
        {
            if self.tabs[i].is_reader_tab {
                let ghost before = self.tabs@;
                let mut updated = self.tabs.remove(i);
                updated.font_name = defaults.font_name.clone();
                updated.font_size_tenths = defaults.font_size_tenths;
                updated.wpm = defaults.wpm;
                self.tabs.insert(i, updated);
                proof {
                    assert(self.tabs@ =~= before.update(
                        i as int,
                        (Tab {
                            font_name: defaults.font_name,
                            font_size_tenths: defaults.font_size_tenths,
                            wpm: defaults.wpm,
                            ..before[i as int]
                        }),
                    ));
                }
            }
            i = i + 1;
        }
        proof {
            if let Some(aid) = old(self).active_id {
                let w = choose|k: int|
                    0 <= k < old(self).tabs@.len() && (#[trigger] old(self).tabs@[k]).id == aid;
                assert(self.tabs@[w].id == aid);
            }
        }
    }
}

/// `tab_position` returns the first index holding the identifier.
pub proof fn lemma_tab_position_first(s: Seq<Tab>, id: TabId, i: int)
    requires
        0 <= i < s.len(),
        s[i].id == id,
        forall|j: int| 0 <= j < i ==> (#[trigger] s[j]).id != id,
    ensures
        tab_position(s, id) == i,
    decreases i,
{
    if i > 0 {
        assert(forall|j: int|
            1 <= j < s.len() ==> #[trigger] s[j] == s.drop_first()[j - 1]);
        lemma_tab_position_first(s.drop_first(), id, i - 1);
    }
}

/// Ordered list of tab identifiers kept for display, updated as tabs come
/// and go.
pub struct TabOrder(pub Vec<TabId>);

impl TabOrder {
    pub fn new() -> (r: TabOrder)
        ensures
            r.0@.len() == 0,
    {
        TabOrder(Vec::new())
    }

    pub fn entities(&self) -> (r: &Vec<TabId>)
        ensures
            *r == self.0,
    {
        &self.0
    }

    pub fn on_tab_added(&mut self, id: TabId)
        ensures
            final(self).0@ == old(self).0@.push(id),
    {
        self.0.push(id);
    }

    pub fn on_tab_removed(&mut self, id: TabId)
        ensures
            final(self).0@ == old(self).0@.filter(|e: TabId| e != id),
    {
        let n = self.0.len();
        let mut kept: Vec<TabId> = Vec::new();
        let mut i: usize = 0;
        proof {
            assert(self.0@.subrange(0, 0) =~= Seq::<TabId>::empty());
            reveal(Seq::filter);
        }
        while i < n
            invariant
                i <= n,
                n == self.0@.len(),
                kept@ == self.0@.subrange(0, i as int).filter(|e: TabId| e != id),
            decreases n - i,
        {
            let ghost prefix = self.0@.subrange(0, i as int);
            let e = self.0[i];
            proof {
                reveal(Seq::filter);
                assert(self.0@.subrange(0, i + 1).drop_last() =~= prefix);
                assert(self.0@.subrange(0, i + 1).last() == e);
            }
            if e != id {
                kept.push(e);
            }
            i = i + 1;
        }
        proof {
            assert(self.0@.subrange(0, n as int) =~= self.0@);
        }
        self.0 = kept;
    }

    /// The neighbour of `target`: the identifier after it in order, else the
    /// one before it, and never `target` itself; `None` when `target` is
    /// absent or alone.
    pub fn find_adjacent(&self, target: TabId) -> (r: Option<TabId>)
        ensures
            ({
                let s = self.0@;
                &&& !id_present(s, target) ==> r is None
                &&& id_present(s, target) ==> ({
                    let pos = id_position(s, target);
                    if pos + 1 < s.len() && s[pos + 1] != target {
                        r == Some(s[pos + 1])
                    } else if pos + 1 >= s.len() && pos > 0 && s[pos - 1] != target {
                        r == Some(s[pos - 1])
                    } else {
                        r is None
                    }
                })
            }),
    {
        let n = self.0.len();
        let mut i: usize = 0;
        while i < n
            invariant
                i <= n,
                n == self.0@.len(),
                forall|j: int| 0 <= j < i ==> self.0@[j] != target,
            decreases n - i,
        {
            if self.0[i] == target {
                proof {
                    lemma_id_position_first(self.0@, target, i as int);
                }
                if i + 1 < n {
                    let candidate = self.0[i + 1];
                    if candidate != target {
                        return Some(candidate);
                    } else {
                        return None;
                    }
                } else if i > 0 {
                    let candidate = self.0[i - 1];
                    if candidate != target {
                        return Some(candidate);
                    } else {
                        return None;
                    }
                } else {
                    return None;
                }
            }
            i = i + 1;
        }
        None
    }
}

/// True when `id` occurs in `s`.
pub open spec fn id_present(s: Seq<TabId>, id: TabId) -> bool {
    exists|i: int| 0 <= i < s.len() && s[i] == id
}

/// Position of the first occurrence of `id` in `s`, or -1 if there is none.
pub open spec fn id_position(s: Seq<TabId>, id: TabId) -> int
    decreases s.len(),
{
    if s.len() == 0 {
        -1
    } else if s[0] == id {
        0
    } else {
        let rest = id_position(s.drop_first(), id);
        if rest < 0 {
            -1
        } else {
            rest + 1
        }
    }
}

proof fn lemma_id_position_first(s: Seq<TabId>, id: TabId, i: int)
    requires
        0 <= i < s.len(),
        s[i] == id,
        forall|j: int| 0 <= j < i ==> s[j] != id,
    ensures
        id_position(s, id) == i,
        id_present(s, id),
    decreases i,
{
    if i > 0 {
        assert(forall|j: int|
            1 <= j < s.len() ==> s[j] == s.drop_first()[j - 1]);
        lemma_id_position_first(s.drop_first(), id, i - 1);
    }
}

} // verus!
