//! The editor's state: what is loaded, selected, filtered and edited, the
//! undo history and the notifications.
use vstd::prelude::*;

use crate::backup::{BackupIndex, BackupMetadata};
use crate::config::{lemma_raw_after_edits_push, raw_after_edits, vehicle_key_from_path, VehicleConfig};
use crate::json::{model_get_str, JsonModel};
use crate::mod_scanner::{ModEntry, ModStorage};
use crate::parts::{PartEntry, PartsIndex};
use crate::paths::file_stem;
use crate::scanner::{ScanMessage, VehicleCategory, VehicleEntry};
use crate::mod_scanner::ModScanMessage;
use crate::parts::PartsScanMessage;
use crate::settings::DirProbe;
use crate::settings::{opt_view, AppSettings};
use crate::slots::{lemma_pairs_map_take, pairs_map, SlotMap};
use crate::text::{
    decimal, seq_lt, str_lt, u64_to_decimal, concat, contains, dedup, dedup_vec, eq_ci, eq_ignore_case, lower, sort_string_vec, sort_strings,
    str_contains, str_eq, to_lower, trim, trim_str, views,
};
use crate::vehicle_source::VehicleLocation;

verus! {

#[verifier::external_type_specification]
#[verifier::external_body]
pub struct ExInstant(std::time::Instant);

/// Calls `Instant::now`; nothing is stated of the moment it returns.
#[verifier::external_body]
fn instant_now() -> (r: std::time::Instant) {
    std::time::Instant::now()
}

/// Calls `Instant::elapsed`; nothing is stated of the time it measures.
#[verifier::external_body]
fn elapsed_since(t: &std::time::Instant) -> (r: core::time::Duration) {
    t.elapsed()
}

/// Calls `Duration::as_nanos`; nothing is stated of the count.
#[verifier::external_body]
fn duration_nanos(d: &core::time::Duration) -> (r: u128) {
    d.as_nanos()
}

/// The tabs of the editor.
#[derive(Debug, Clone, Copy, PartialEq, Eq, Structural)]
pub enum AppTab {
    Grid,
    Mods,
    Editor,
    Backups,
    Settings,
}

/// How long a notification stays, in nanoseconds.
pub const TOAST_LIFETIME_NANOS: u128 = 4_000_000_000;

/// A notification.
#[derive(Debug)]
pub struct Toast {
    pub message: String,
    pub is_error: bool,
    pub created: std::time::Instant,
}

/// Whether a notification shown for `elapsed_nanos` has expired (after
/// four seconds).
pub fn expired_after(elapsed_nanos: u128) -> (r: bool)
    ensures
        r == (elapsed_nanos > TOAST_LIFETIME_NANOS),
{
    elapsed_nanos > TOAST_LIFETIME_NANOS
}

impl Toast {
    /// An information notification, created now.
    pub fn info(message: String) -> (t: Toast)
        ensures
            t.message@ == message@,
            !t.is_error,
    {
        Toast { message, is_error: false, created: instant_now() }
    }

    /// An error notification, created now.
    pub fn error(message: String) -> (t: Toast)
        ensures
            t.message@ == message@,
            t.is_error,
    {
        Toast { message, is_error: true, created: instant_now() }
    }

    /// Whether the notification has been shown long enough (see
    /// [`expired_after`]); it depends on the clock.
    pub fn expired(&self) -> (r: bool) {
        let d = elapsed_since(&self.created);
        expired_after(duration_nanos(&d))
    }
}

/// A state of the edit buffer that undo or redo returns to.
#[derive(Debug)]
pub struct UndoSnapshot {
    pub config: VehicleConfig,
    pub label: String,
}

/// The mathematical form of a config: its path, document and assignments.
pub struct ConfigView {
    pub path: Seq<char>,
    pub raw: JsonModel,
    pub parts: Seq<(Seq<char>, Seq<char>)>,
}

/// The view of a config.
pub open spec fn cfg(c: VehicleConfig) -> ConfigView {
    ConfigView { path: c.path@, raw: c.raw.model(), parts: c.parts.pairs() }
}

/// The view of an optional config.
pub open spec fn buf_view(b: Option<VehicleConfig>) -> Option<ConfigView> {
    match b {
        Some(c) => Some(cfg(c)),
        None => None,
    }
}

/// The views of snapshots.
pub open spec fn snaps(v: Seq<UndoSnapshot>) -> Seq<(ConfigView, Seq<char>)> {
    v.map_values(|s: UndoSnapshot| (cfg(s.config), s.label@))
}

/// The messages of notifications.
pub open spec fn toast_msgs(v: Seq<Toast>) -> Seq<Seq<char>> {
    v.map_values(|t: Toast| t.message@)
}

/// At most the last `n` items.
pub open spec fn keep_last<T>(s: Seq<T>, n: nat) -> Seq<T> {
    if s.len() > n {
        s.skip(s.len() - n)
    } else {
        s
    }
}

/// The most undo steps kept.
pub const UNDO_LIMIT: usize = 50;

/// The most notifications kept.
pub const TOAST_LIMIT: usize = 5;

/// What the user asked for in the current frame, handled after drawing.
#[derive(Debug)]
pub struct UiRequests {
    pub user_browse: bool,
    pub rescan: bool,
    pub mods_browse: bool,
    pub exe_browse: bool,
    pub save_settings: bool,
    pub load_vehicle_id: Option<String>,
    pub apply: bool,
    pub restore_latest: bool,
    pub parts_scan: bool,
    pub engine_scan: bool,
    pub assign_engine: Option<String>,
    pub unpack_mod_id: Option<String>,
    pub pack_mod_id: Option<String>,
    pub add_car_to_mod_id: Option<String>,
    pub confirm_restore: bool,
    pub confirm_restore_all: bool,
    pub drive: bool,
}

impl UiRequests {
    /// Whether nothing is asked for.
    pub open spec fn nothing_requested(self) -> bool {
        !self.user_browse && !self.rescan && !self.mods_browse && !self.exe_browse && !self.save_settings
            && self.load_vehicle_id is None && !self.apply && !self.restore_latest && !self.parts_scan
            && !self.engine_scan && self.assign_engine is None && self.unpack_mod_id is None && self.pack_mod_id is None
            && self.add_car_to_mod_id is None && !self.confirm_restore && !self.confirm_restore_all && !self.drive
    }

    /// No request.
    pub fn none() -> (r: UiRequests)
        ensures
            r.nothing_requested(),
            !r.user_browse && !r.rescan && !r.mods_browse && !r.exe_browse && !r.save_settings
                && r.load_vehicle_id is None && !r.apply && !r.restore_latest && !r.parts_scan
                && !r.engine_scan && r.assign_engine is None && r.unpack_mod_id is None && r.pack_mod_id is None
                && r.add_car_to_mod_id is None && !r.confirm_restore && !r.confirm_restore_all && !r.drive,
    {
        UiRequests {
            user_browse: false,
            rescan: false,
            mods_browse: false,
            exe_browse: false,
            save_settings: false,
            load_vehicle_id: None,
            apply: false,
            restore_latest: false,
            parts_scan: false,
            engine_scan: false,
            assign_engine: None,
            unpack_mod_id: None,
            pack_mod_id: None,
            add_car_to_mod_id: None,
            confirm_restore: false,
            confirm_restore_all: false,
            drive: false,
        }
    }
}

/// The progress of the scans.
#[derive(Debug)]
pub struct ScanStatus {
    pub scanning: bool,
    pub scan_progress: Option<(usize, String)>,
    pub mod_scanning: bool,
    pub mod_scan_progress: Option<(usize, String)>,
    pub parts_scanning: bool,
    pub parts_scan_done: bool,
    pub parts_scan_progress: Option<(usize, String)>,
}

/// What the panels show besides the main lists.
#[derive(Debug)]
pub struct PanelState {
    pub mod_add_vehicle: String,
    pub mod_template_vehicle: String,
    pub pending_mod_remove: Option<String>,
    pub pending_adapter_remove: Option<(String, String)>,
    pub engine_search: String,
    pub engine_mod_filter: Option<String>,
    pub show_engine_browser: bool,
    pub selected_engine_mod: Option<String>,
    pub slot_filter: String,
    pub backup_vehicle_filter: Option<String>,
    pub pending_restore: Option<BackupMetadata>,
    pub pending_restore_all: bool,
}

/// What the editor holds.
#[derive(Debug)]
pub struct AppState {
    pub settings: AppSettings,
    pub tab: AppTab,
    pub vehicles: Vec<VehicleEntry>,
    pub selected_id: Option<String>,
    pub search_query: String,
    pub mod_filter: Option<String>,
    pub stock_only: bool,
    pub mod_only: bool,
    pub saved_only: bool,
    pub mods: Vec<ModEntry>,
    pub selected_mod_id: Option<String>,
    pub loaded_config: Option<VehicleConfig>,
    pub loaded_location: Option<VehicleLocation>,
    pub edit_buffer: Option<VehicleConfig>,
    pub slot_edits: SlotMap,
    pub backup_index: BackupIndex,
    pub parts_index: PartsIndex,
    pub parts_collect: Vec<PartEntry>,
    pub toasts: Vec<Toast>,
    pub undo_stack: Vec<UndoSnapshot>,
    pub redo_stack: Vec<UndoSnapshot>,
    pub dirty: bool,
    pub status_message: String,
    pub scan: ScanStatus,
    pub panel: PanelState,
    pub requests: UiRequests,
}

// ---------------------------------------------------------------------------
// Transitions
// ---------------------------------------------------------------------------

/// `new` is `old` with a notification `t` added, keeping the last five.
pub open spec fn toast_pushed(old: AppState, new: AppState, msg: Seq<char>) -> bool {
    &&& toast_msgs(new.toasts@) == keep_last(toast_msgs(old.toasts@).push(msg), TOAST_LIMIT as nat)
    &&& new.toasts@.len() == keep_last(old.toasts@.push(new.toasts@.last()), TOAST_LIMIT as nat).len()
}

/// `new` is `old` after `push_undo(label)`: with an edit buffer, the buffer
/// is saved on the undo stack (keeping the last fifty) and redo is cleared;
/// without one nothing changes.
pub open spec fn push_undo_post(old: AppState, new: AppState, label: Seq<char>) -> bool {
    &&& new == (AppState { undo_stack: new.undo_stack, redo_stack: new.redo_stack, ..old })
    &&& match old.edit_buffer {
        Some(c) => {
            &&& snaps(new.undo_stack@) == if snaps(old.undo_stack@).len() + 1 > UNDO_LIMIT {
                snaps(old.undo_stack@).push((cfg(c), label)).drop_first()
            } else {
                snaps(old.undo_stack@).push((cfg(c), label))
            }
            &&& new.redo_stack@.len() == 0
        },
        None => {
            &&& snaps(new.undo_stack@) == snaps(old.undo_stack@)
            &&& snaps(new.redo_stack@) == snaps(old.redo_stack@)
        },
    }
}

/// `new` is `old` after stepping from the top of `from` (undo or redo):
/// the snapshot becomes the buffer, the buffer (if any) is saved on `to`
/// labelled `saved`, the slot edits follow the new buffer, the editor is
/// dirty and `message` is notified. Nothing changes when `from` is empty.
pub open spec fn stepped(
    old: AppState,
    new: AppState,
    old_from: Seq<(ConfigView, Seq<char>)>,
    new_from: Seq<(ConfigView, Seq<char>)>,
    old_to: Seq<(ConfigView, Seq<char>)>,
    new_to: Seq<(ConfigView, Seq<char>)>,
    saved: Seq<char>,
    message: Seq<char>,
) -> bool {
    if old_from.len() == 0 {
        &&& new_from == old_from
        &&& new_to == old_to
        &&& buf_view(new.edit_buffer) == buf_view(old.edit_buffer)
        &&& new.slot_edits.pairs() == old.slot_edits.pairs()
        &&& toast_msgs(new.toasts@) == toast_msgs(old.toasts@)
        &&& new.dirty == old.dirty
    } else {
        &&& new_from == old_from.drop_last()
        &&& new_to == match old.edit_buffer {
            Some(c) => old_to.push((cfg(c), saved)),
            None => old_to,
        }
        &&& buf_view(new.edit_buffer) == Some(old_from.last().0)
        &&& new.slot_edits.map() == pairs_map(old_from.last().0.parts)
        &&& toast_msgs(new.toasts@) == keep_last(toast_msgs(old.toasts@).push(message), TOAST_LIMIT as nat)
        &&& new.dirty
    }
}

/// `new` is `old` after `undo`.
pub open spec fn undo_post(old: AppState, new: AppState) -> bool {
    stepped(
        old,
        new,
        snaps(old.undo_stack@),
        snaps(new.undo_stack@),
        snaps(old.redo_stack@),
        snaps(new.redo_stack@),
        "redo point"@,
        "Undo: "@ + snaps(old.undo_stack@).last().1,
    )
}

/// `new` is `old` after `redo`.
pub open spec fn redo_post(old: AppState, new: AppState) -> bool {
    stepped(
        old,
        new,
        snaps(old.redo_stack@),
        snaps(new.redo_stack@),
        snaps(old.undo_stack@),
        snaps(new.undo_stack@),
        "undo point"@,
        "Redo"@,
    )
}

impl AppState {
    /// The state at start-up.
    pub fn new(settings: AppSettings, backup_index: BackupIndex) -> (r: AppState)
        ensures
            r.tab == AppTab::Grid,
            r.vehicles@.len() == 0,
            r.mods@.len() == 0,
            r.selected_id is None,
            r.edit_buffer is None,
            r.slot_edits.map() == Map::<Seq<char>, Seq<char>>::empty(),
            r.undo_stack@.len() == 0,
            r.redo_stack@.len() == 0,
            r.toasts@.len() == 0,
            !r.dirty,
            r.search_query@.len() == 0,
            r.status_message@ == "Set BeamNG user folder and exe in Settings, then Rescan."@,
            r.settings == settings,
            r.backup_index == backup_index,
            r.mod_filter is None,
            !r.stock_only && !r.mod_only && !r.saved_only,
            r.selected_mod_id is None,
            r.loaded_config is None,
            r.loaded_location is None,
            r.parts_collect@.len() == 0,
            r.parts_index.all_by_id@.len() == 0 && r.parts_index.engines@.len() == 0
                && r.parts_index.by_slot_type@.len() == 0 && r.parts_index.engine_mods@.len() == 0,
            !r.scan.scanning && !r.scan.mod_scanning && !r.scan.parts_scanning && !r.scan.parts_scan_done,
            r.scan.scan_progress is None && r.scan.mod_scan_progress is None && r.scan.parts_scan_progress is None,
            r.requests.nothing_requested(),
            r.panel.pending_restore is None && !r.panel.pending_restore_all,
    {
        AppState {
            settings,
            tab: AppTab::Grid,
            vehicles: Vec::new(),
            selected_id: None,
            search_query: String::new(),
            mod_filter: None,
            stock_only: false,
            mod_only: false,
            saved_only: false,
            mods: Vec::new(),
            selected_mod_id: None,
            loaded_config: None,
            loaded_location: None,
            edit_buffer: None,
            slot_edits: SlotMap::new(),
            backup_index,
            parts_index: PartsIndex::new(),
            parts_collect: Vec::new(),
            toasts: Vec::new(),
            undo_stack: Vec::new(),
            redo_stack: Vec::new(),
            dirty: false,
            status_message: "Set BeamNG user folder and exe in Settings, then Rescan.".to_owned(),
            scan: ScanStatus {
                scanning: false,
                scan_progress: None,
                mod_scanning: false,
                mod_scan_progress: None,
                parts_scanning: false,
                parts_scan_done: false,
                parts_scan_progress: None,
            },
            panel: PanelState {
                mod_add_vehicle: String::new(),
                mod_template_vehicle: String::new(),
                pending_mod_remove: None,
                pending_adapter_remove: None,
                engine_search: String::new(),
                engine_mod_filter: None,
                show_engine_browser: false,
                selected_engine_mod: None,
                slot_filter: String::new(),
                backup_vehicle_filter: None,
                pending_restore: None,
                pending_restore_all: false,
            },
            requests: UiRequests::none(),
        }
    }

    /// Adds a notification, keeping the last five.
    pub fn push_toast(&mut self, toast: Toast)
        ensures
            final(self).toasts@ == keep_last(old(self).toasts@.push(toast), TOAST_LIMIT as nat),
            toast_msgs(final(self).toasts@) == keep_last(toast_msgs(old(self).toasts@).push(toast.message@), TOAST_LIMIT as nat),
            *final(self) == (AppState { toasts: final(self).toasts, ..*old(self) }),
    {
        let ghost s = self.toasts@.push(toast);
        let ghost m = toast_msgs(self.toasts@).push(toast.message@);
        self.toasts.push(toast);
        assert(toast_msgs(self.toasts@) =~= m);
        assert(toast_msgs(s) =~= m);
        let ghost mut dropped: int = 0;
        while self.toasts.len() > TOAST_LIMIT
            invariant
                0 <= dropped,
                s.len() > TOAST_LIMIT ==> dropped <= s.len() - TOAST_LIMIT,
                s.len() <= TOAST_LIMIT ==> dropped == 0,
                self.toasts@ == s.skip(dropped),
                toast_msgs(s) == m,
                *self == (AppState { toasts: self.toasts, ..*old(self) }),
            decreases self.toasts@.len(),
        {
            let ghost before = self.toasts@;
            self.toasts.remove(0);
            proof {
                before.remove_ensures(0);
                assert(self.toasts@ =~= s.skip(dropped + 1));
                dropped = dropped + 1;
            }
        }
        proof {
            if s.len() <= TOAST_LIMIT {
                assert(s.skip(0) =~= s);
            }
            assert forall|j: int| 0 <= j < toast_msgs(self.toasts@).len() implies toast_msgs(self.toasts@)[j]
                == m.skip(dropped)[j] by {
                assert(self.toasts@[j] == s[dropped + j]);
                assert(toast_msgs(s)[dropped + j] == s[dropped + j].message@);
            }
            assert(toast_msgs(self.toasts@) =~= keep_last(m, TOAST_LIMIT as nat));
        }
    }

    /// The selected vehicle: the first with the selected id.
    pub fn selected_vehicle(&self) -> (r: Option<&VehicleEntry>)
        ensures
            match r {
                Some(v) => self.selected_id matches Some(id) && exists|i: int|
                    0 <= i < self.vehicles@.len() && self.vehicles@[i] == *v && v.id@ == id@ && forall|j: int|
                        0 <= j < i ==> #[trigger] self.vehicles@[j].id@ != id@,
                None => match self.selected_id {
                    Some(id) => forall|j: int| 0 <= j < self.vehicles@.len() ==> #[trigger] self.vehicles@[j].id@ != id@,
                    None => true,
                },
            },
    {
        let id = match &self.selected_id {
            Some(id) => id,
            None => {
                return None;
            },
        };
        let mut i: usize = 0;
        while i < self.vehicles.len()
            invariant
                i <= self.vehicles@.len(),
                self.selected_id == Some(*id),
                forall|j: int| 0 <= j < i ==> #[trigger] self.vehicles@[j].id@ != id@,
            decreases self.vehicles@.len() - i,
        {
            if str_eq(self.vehicles[i].id.as_str(), id.as_str()) {
                return Some(&self.vehicles[i]);
            }
            i = i + 1;
        }
        None
    }

    /// The selected mod: the first with the selected id.
    pub fn selected_mod(&self) -> (r: Option<&ModEntry>)
        ensures
            match r {
                Some(m) => self.selected_mod_id matches Some(id) && exists|i: int|
                    0 <= i < self.mods@.len() && self.mods@[i] == *m && m.id@ == id@ && forall|j: int|
                        0 <= j < i ==> #[trigger] self.mods@[j].id@ != id@,
                None => match self.selected_mod_id {
                    Some(id) => forall|j: int| 0 <= j < self.mods@.len() ==> #[trigger] self.mods@[j].id@ != id@,
                    None => true,
                },
            },
    {
        let id = match &self.selected_mod_id {
            Some(id) => id,
            None => {
                return None;
            },
        };
        let mut i: usize = 0;
        while i < self.mods.len()
            invariant
                i <= self.mods@.len(),
                self.selected_mod_id == Some(*id),
                forall|j: int| 0 <= j < i ==> #[trigger] self.mods@[j].id@ != id@,
            decreases self.mods@.len() - i,
        {
            if str_eq(self.mods[i].id.as_str(), id.as_str()) {
                return Some(&self.mods[i]);
            }
            i = i + 1;
        }
        None
    }
}

// ---------------------------------------------------------------------------
// Filtering
// ---------------------------------------------------------------------------

/// Whether a vehicle passes the grid filters: the category switches, the mod
/// filter (ASCII case ignored) and the query `q` (trimmed and lowercased),
/// which must be empty or occur in its lowercased name, id, mod or model.
pub open spec fn vehicle_shown(
    v: VehicleEntry,
    saved_only: bool,
    stock_only: bool,
    mod_only: bool,
    mod_filter: Option<Seq<char>>,
    q: Seq<char>,
) -> bool {
    &&& !(saved_only && v.category != VehicleCategory::Saved)
    &&& !(stock_only && v.category != VehicleCategory::Stock)
    &&& !(mod_only && v.category != VehicleCategory::Mod)
    &&& match mod_filter {
        Some(m) => eq_ci(v.mod_name@, m),
        None => true,
    }
    &&& (q.len() == 0 || contains(lower(v.name@), q) || contains(lower(v.id@), q) || contains(
        lower(v.mod_name@),
        q,
    ) || contains(lower(v.model_key@), q))
}

/// The vehicles shown, in order.
pub open spec fn vehicles_shown(
    vs: Seq<VehicleEntry>,
    saved_only: bool,
    stock_only: bool,
    mod_only: bool,
    mod_filter: Option<Seq<char>>,
    q: Seq<char>,
) -> Seq<VehicleEntry>
    decreases vs.len(),
{
    if vs.len() == 0 {
        Seq::empty()
    } else {
        let r = vehicles_shown(vs.drop_last(), saved_only, stock_only, mod_only, mod_filter, q);
        if vehicle_shown(vs.last(), saved_only, stock_only, mod_only, mod_filter, q) {
            r.push(vs.last())
        } else {
            r
        }
    }
}

proof fn lemma_vehicles_shown_filter(
    vs: Seq<VehicleEntry>,
    saved_only: bool,
    stock_only: bool,
    mod_only: bool,
    mod_filter: Option<Seq<char>>,
    q: Seq<char>,
)
    ensures
        vehicles_shown(vs, saved_only, stock_only, mod_only, mod_filter, q) == vs.filter(
            |v: VehicleEntry| vehicle_shown(v, saved_only, stock_only, mod_only, mod_filter, q),
        ),
    decreases vs.len(),
{
    reveal(Seq::filter);
    if vs.len() > 0 {
        lemma_vehicles_shown_filter(vs.drop_last(), saved_only, stock_only, mod_only, mod_filter, q);
    }
}

/// Whether a mod matches the query `q` (trimmed and lowercased): empty, or
/// in its lowercased name, id or one of its target vehicles.
pub open spec fn mod_shown(m: ModEntry, q: Seq<char>) -> bool {
    q.len() == 0 || contains(lower(m.name@), q) || contains(lower(m.id@), q) || exists|k: int|
        0 <= k < m.target_vehicles@.len() && contains(lower(#[trigger] m.target_vehicles@[k]@), q)
}

/// The mods matching the query (of the given storage, when one is given), in order.
pub open spec fn mods_shown(ms: Seq<ModEntry>, q: Seq<char>, storage: Option<ModStorage>) -> Seq<ModEntry>
    decreases ms.len(),
{
    if ms.len() == 0 {
        Seq::empty()
    } else {
        let r = mods_shown(ms.drop_last(), q, storage);
        if mod_shown(ms.last(), q) && match storage {
            Some(st) => ms.last().storage == st,
            None => true,
        } {
            r.push(ms.last())
        } else {
            r
        }
    }
}

proof fn lemma_mods_shown_filter(ms: Seq<ModEntry>, q: Seq<char>, storage: Option<ModStorage>)
    ensures
        mods_shown(ms, q, storage) == ms.filter(
            |m: ModEntry|
                mod_shown(m, q) && match storage {
                    Some(st) => m.storage == st,
                    None => true,
                },
        ),
    decreases ms.len(),
{
    reveal(Seq::filter);
    if ms.len() > 0 {
        lemma_mods_shown_filter(ms.drop_last(), q, storage);
    }
}

/// Dereferences a list of borrowed values.
pub open spec fn derefs<T>(v: Seq<&T>) -> Seq<T> {
    v.map_values(|x: &T| *x)
}

fn mod_matches(m: &ModEntry, q: &str) -> (r: bool)
    ensures
        r == mod_shown(*m, q@),
{
    if crate::text::is_empty_str(q) {
        return true;
    }
    let ln = to_lower(m.name.as_str());
    if str_contains(ln.as_str(), q) {
        return true;
    }
    let li = to_lower(m.id.as_str());
    if str_contains(li.as_str(), q) {
        return true;
    }
    let mut k: usize = 0;
    while k < m.target_vehicles.len()
        invariant
            k <= m.target_vehicles@.len(),
            forall|j: int| 0 <= j < k ==> !contains(lower(#[trigger] m.target_vehicles@[j]@), q@),
        decreases m.target_vehicles@.len() - k,
    {
        let lt = to_lower(m.target_vehicles[k].as_str());
        if str_contains(lt.as_str(), q) {
            return true;
        }
        k = k + 1;
    }
    false
}

impl AppState {
    /// The query as matched: trimmed and lowercased.
    pub open spec fn query(self) -> Seq<char> {
        lower(trim(self.search_query@))
    }

    /// The vehicles shown in the grid (see [`vehicle_shown`]).
    pub fn filtered_vehicles(&self) -> (r: Vec<&VehicleEntry>)
        ensures
            derefs(r@) == vehicles_shown(
                self.vehicles@,
                self.saved_only,
                self.stock_only,
                self.mod_only,
                opt_view(self.mod_filter),
                self.query(),
            ),
    {
        let t = trim_str(self.search_query.as_str());
        let q = to_lower(t.as_str());
        let ghost mf = opt_view(self.mod_filter);
        let mut out: Vec<&VehicleEntry> = Vec::new();
        let mut i: usize = 0;
        while i < self.vehicles.len()
            invariant
                i <= self.vehicles@.len(),
                q@ == self.query(),
                mf == opt_view(self.mod_filter),
                derefs(out@) == vehicles_shown(
                    self.vehicles@.take(i as int),
                    self.saved_only,
                    self.stock_only,
                    self.mod_only,
                    mf,
                    q@,
                ),
            decreases self.vehicles@.len() - i,
        {
            let v = &self.vehicles[i];
            proof {
                assert(self.vehicles@.take(i + 1).drop_last() =~= self.vehicles@.take(i as int));
                assert(self.vehicles@.take(i + 1).last() == *v);
            }
            let mut keep = !(self.saved_only && v.category != VehicleCategory::Saved) && !(self.stock_only
                && v.category != VehicleCategory::Stock) && !(self.mod_only && v.category != VehicleCategory::Mod);
            if keep {
                keep = match &self.mod_filter {
                    Some(m) => eq_ignore_case(v.mod_name.as_str(), m.as_str()),
                    None => true,
                };
            }
            if keep {
                keep = crate::text::is_empty_str(q.as_str()) || {
                    let l = to_lower(v.name.as_str());
                    str_contains(l.as_str(), q.as_str())
                } || {
                    let l = to_lower(v.id.as_str());
                    str_contains(l.as_str(), q.as_str())
                } || {
                    let l = to_lower(v.mod_name.as_str());
                    str_contains(l.as_str(), q.as_str())
                } || {
                    let l = to_lower(v.model_key.as_str());
                    str_contains(l.as_str(), q.as_str())
                };
            }
            if keep {
                let ghost prev = derefs(out@);
                out.push(v);
                assert(derefs(out@) =~= prev.push(*v));
            }
            i = i + 1;
        }
        assert(self.vehicles@.take(self.vehicles@.len() as int) =~= self.vehicles@);
        out
    }

    fn mods_matching(&self, storage: Option<ModStorage>) -> (r: Vec<&ModEntry>)
        ensures
            derefs(r@) == mods_shown(self.mods@, self.query(), storage),
    {
        let t = trim_str(self.search_query.as_str());
        let q = to_lower(t.as_str());
        let mut out: Vec<&ModEntry> = Vec::new();
        let mut i: usize = 0;
        while i < self.mods.len()
            invariant
                i <= self.mods@.len(),
                q@ == self.query(),
                derefs(out@) == mods_shown(self.mods@.take(i as int), q@, storage),
            decreases self.mods@.len() - i,
        {
            let m = &self.mods[i];
            proof {
                assert(self.mods@.take(i + 1).drop_last() =~= self.mods@.take(i as int));
                assert(self.mods@.take(i + 1).last() == *m);
            }
            let in_storage = match storage {
                Some(st) => m.storage == st,
                None => true,
            };
            if mod_matches(m, q.as_str()) && in_storage {
                let ghost prev = derefs(out@);
                out.push(m);
                assert(derefs(out@) =~= prev.push(*m));
            }
            i = i + 1;
        }
        assert(self.mods@.take(self.mods@.len() as int) =~= self.mods@);
        out
    }

    /// The grid shows exactly the vehicles that pass every filter, in their
    /// order: each vehicle shown is one of the state's vehicles; with "stock
    /// only" it is a stock vehicle, with "saved only" a saved one, with "mod
    /// only" a mod one; with a mod filter it is from that mod (ASCII case
    /// ignored); with a non-empty query the query occurs in its lowercased
    /// name, id, mod or model. Every vehicle that passes all of these is
    /// shown, and the grid keeps their order.
    pub proof fn law_filtered_vehicles(self)
        ensures
            forall|v: VehicleEntry|
                #[trigger] vehicles_shown(
                    self.vehicles@,
                    self.saved_only,
                    self.stock_only,
                    self.mod_only,
                    opt_view(self.mod_filter),
                    self.query(),
                ).contains(v) ==> {
                    &&& self.vehicles@.contains(v)
                    &&& self.stock_only ==> v.category == VehicleCategory::Stock
                    &&& self.saved_only ==> v.category == VehicleCategory::Saved
                    &&& self.mod_only ==> v.category == VehicleCategory::Mod
                    &&& self.mod_filter matches Some(m) ==> eq_ci(v.mod_name@, m@)
                    &&& self.query().len() > 0 ==> contains(lower(v.name@), self.query()) || contains(
                        lower(v.id@),
                        self.query(),
                    ) || contains(lower(v.mod_name@), self.query()) || contains(lower(v.model_key@), self.query())
                },
            forall|v: VehicleEntry|
                {
                    &&& #[trigger] self.vehicles@.contains(v)
                    &&& self.stock_only ==> v.category == VehicleCategory::Stock
                    &&& self.saved_only ==> v.category == VehicleCategory::Saved
                    &&& self.mod_only ==> v.category == VehicleCategory::Mod
                    &&& self.mod_filter matches Some(m) ==> eq_ci(v.mod_name@, m@)
                    &&& self.query().len() > 0 ==> contains(lower(v.name@), self.query()) || contains(
                        lower(v.id@),
                        self.query(),
                    ) || contains(lower(v.mod_name@), self.query()) || contains(lower(v.model_key@), self.query())
                } ==> vehicles_shown(
                    self.vehicles@,
                    self.saved_only,
                    self.stock_only,
                    self.mod_only,
                    opt_view(self.mod_filter),
                    self.query(),
                ).contains(v),
            vehicles_shown(
                self.vehicles@,
                self.saved_only,
                self.stock_only,
                self.mod_only,
                opt_view(self.mod_filter),
                self.query(),
            ) == self.vehicles@.filter(
                |v: VehicleEntry|
                    {
                        &&& self.stock_only ==> v.category == VehicleCategory::Stock
                        &&& self.saved_only ==> v.category == VehicleCategory::Saved
                        &&& self.mod_only ==> v.category == VehicleCategory::Mod
                        &&& self.mod_filter matches Some(m) ==> eq_ci(v.mod_name@, m@)
                        &&& self.query().len() > 0 ==> contains(lower(v.name@), self.query()) || contains(
                            lower(v.id@),
                            self.query(),
                        ) || contains(lower(v.mod_name@), self.query()) || contains(lower(v.model_key@), self.query())
                    },
            ),
    {
        let mf = opt_view(self.mod_filter);
        let q = self.query();
        let pred = |v: VehicleEntry| vehicle_shown(v, self.saved_only, self.stock_only, self.mod_only, mf, q);
        lemma_vehicles_shown_filter(self.vehicles@, self.saved_only, self.stock_only, self.mod_only, mf, q);
        crate::text::lemma_filter_members(self.vehicles@, pred);
        let direct = |v: VehicleEntry|
            {
                &&& self.stock_only ==> v.category == VehicleCategory::Stock
                &&& self.saved_only ==> v.category == VehicleCategory::Saved
                &&& self.mod_only ==> v.category == VehicleCategory::Mod
                &&& self.mod_filter matches Some(m) ==> eq_ci(v.mod_name@, m@)
                &&& q.len() > 0 ==> contains(lower(v.name@), q) || contains(lower(v.id@), q) || contains(
                    lower(v.mod_name@),
                    q,
                ) || contains(lower(v.model_key@), q)
            };
        assert(pred =~= direct);
    }

    /// The mods list shows exactly the mods that match the query, in their
    /// order: each mod shown is one of the state's mods and, for a non-empty
    /// query (trimmed, lowercased), the query occurs in its lowercased name,
    /// its lowercased id or one of its lowercased target vehicles; every mod
    /// of which one of these holds is shown, in the order of the list.
    pub proof fn law_filtered_mods(self)
        ensures
            forall|m: ModEntry|
                #[trigger] mods_shown(self.mods@, self.query(), None).contains(m) ==> self.mods@.contains(m) && (
                self.query().len() == 0 || contains(lower(m.name@), self.query()) || contains(
                    lower(m.id@),
                    self.query(),
                ) || exists|k: int|
                    0 <= k < m.target_vehicles@.len() && contains(
                        lower(#[trigger] m.target_vehicles@[k]@),
                        self.query(),
                    )),
            forall|m: ModEntry, k: int|
                #[trigger] self.mods@.contains(m) && 0 <= k < m.target_vehicles@.len() && contains(
                    lower(#[trigger] m.target_vehicles@[k]@),
                    self.query(),
                ) ==> mods_shown(self.mods@, self.query(), None).contains(m),
            forall|m: ModEntry|
                #[trigger] self.mods@.contains(m) && (self.query().len() == 0 || contains(
                    lower(m.name@),
                    self.query(),
                ) || contains(lower(m.id@), self.query())) ==> mods_shown(self.mods@, self.query(), None).contains(m),
            mods_shown(self.mods@, self.query(), None) == self.mods@.filter(
                |m: ModEntry|
                    self.query().len() == 0 || contains(lower(m.name@), self.query()) || contains(
                        lower(m.id@),
                        self.query(),
                    ) || exists|k: int|
                        0 <= k < m.target_vehicles@.len() && contains(
                            lower(#[trigger] m.target_vehicles@[k]@),
                            self.query(),
                        ),
            ),
    {
        let q = self.query();
        let st: Option<ModStorage> = None;
        let pred = |m: ModEntry|
            mod_shown(m, q) && match st {
                Some(s) => m.storage == s,
                None => true,
            };
        lemma_mods_shown_filter(self.mods@, q, st);
        crate::text::lemma_filter_members(self.mods@, pred);
        assert forall|m: ModEntry, k: int|
            #[trigger] self.mods@.contains(m) && 0 <= k < m.target_vehicles@.len() && contains(
                lower(#[trigger] m.target_vehicles@[k]@),
                q,
            ) implies mods_shown(self.mods@, q, None).contains(m) by {
            assert(pred(m));
        }
        let direct = |m: ModEntry|
            q.len() == 0 || contains(lower(m.name@), q) || contains(lower(m.id@), q) || exists|k: int|
                0 <= k < m.target_vehicles@.len() && contains(lower(#[trigger] m.target_vehicles@[k]@), q);
        assert(pred =~= direct);
    }

    /// The mods of one storage matching the query are the mods matching it
    /// (see [`AppState::law_filtered_mods`]) that have that storage.
    pub proof fn law_filtered_mods_by_storage(self, storage: ModStorage)
        ensures
            forall|m: ModEntry|
                #[trigger] mods_shown(self.mods@, self.query(), Some(storage)).contains(m) <==> mods_shown(
                    self.mods@,
                    self.query(),
                    None,
                ).contains(m) && m.storage == storage,
    {
        let q = self.query();
        let none: Option<ModStorage> = None;
        let some = Some(storage);
        lemma_mods_shown_filter(self.mods@, q, none);
        lemma_mods_shown_filter(self.mods@, q, some);
        crate::text::lemma_filter_members(
            self.mods@,
            |m: ModEntry|
                mod_shown(m, q) && match none {
                    Some(st) => m.storage == st,
                    None => true,
                },
        );
        crate::text::lemma_filter_members(
            self.mods@,
            |m: ModEntry|
                mod_shown(m, q) && match some {
                    Some(st) => m.storage == st,
                    None => true,
                },
        );
    }

    /// The mods matching the query (see [`mod_shown`]).
    pub fn filtered_mods(&self) -> (r: Vec<&ModEntry>)
        ensures
            derefs(r@) == mods_shown(self.mods@, self.query(), None),
    {
        self.mods_matching(None)
    }

    /// The mods of one storage matching the query.
    pub fn filtered_mods_by_storage(&self, storage: ModStorage) -> (r: Vec<&ModEntry>)
        ensures
            derefs(r@) == mods_shown(self.mods@, self.query(), Some(storage)),
    {
        self.mods_matching(Some(storage))
    }

    /// The model being edited: the selected vehicle's model key when it has
    /// one, else the buffer's `model`, else its `mainPartName`.
    pub fn current_vehicle_model(&self) -> (r: Option<String>)
        ensures
            ({
                let from_selection = match self.selected_id {
                    Some(id) => {
                        let k = first_with_id(self.vehicles@, id@);
                        if k < self.vehicles@.len() && self.vehicles@[k].model_key@.len() > 0 {
                            Some(self.vehicles@[k].model_key@)
                        } else {
                            None
                        }
                    },
                    None => None,
                };
                let from_buffer = match self.edit_buffer {
                    Some(b) => match model_get_str(b.raw.model(), "model"@) {
                        Some(m) => Some(m),
                        None => model_get_str(b.raw.model(), "mainPartName"@),
                    },
                    None => None,
                };
                opt_view(r) == match from_selection {
                    Some(m) => Some(m),
                    None => from_buffer,
                }
            }),
    {
        proof {
            if self.selected_id is Some {
                lemma_first_with_id(self.vehicles@, self.selected_id->0@);
            }
        }
        match self.selected_vehicle() {
            Some(v) => {
                if !crate::text::is_empty_str(v.model_key.as_str()) {
                    return Some(v.model_key.clone());
                }
            },
            None => {},
        }
        match &self.edit_buffer {
            Some(buf) => {
                match buf.raw.get_str("model") {
                    Some(m) => {
                        return Some(m.clone());
                    },
                    None => {},
                }
                match buf.raw.get_str("mainPartName") {
                    Some(m) => Some(m.clone()),
                    None => None,
                }
            },
            None => None,
        }
    }

    /// The mod named `name` (ASCII case ignored): the last unpacked one, else
    /// the last packed one.
    pub fn mod_by_name(&self, name: &str) -> (r: Option<&ModEntry>)
        ensures
            ({
                let u = last_named(self.mods@, name@, Some(ModStorage::Unpacked));
                let a = last_named(self.mods@, name@, None);
                match r {
                    Some(m) => if u >= 0 {
                        *m == self.mods@[u]
                    } else {
                        a >= 0 && *m == self.mods@[a]
                    },
                    None => a < 0,
                }
            }),
    {
        let mut best: Option<usize> = None;
        let mut best_unpacked = false;
        let mut i: usize = 0;
        while i < self.mods.len()
            invariant
                i <= self.mods@.len(),
                best is None ==> !best_unpacked,
                ({
                    let u = last_named(self.mods@.take(i as int), name@, Some(ModStorage::Unpacked));
                    let a = last_named(self.mods@.take(i as int), name@, None);
                    match best {
                        Some(b) => b < i && if u >= 0 {
                            b == u && best_unpacked
                        } else {
                            a >= 0 && b == a && !best_unpacked
                        },
                        None => a < 0,
                    }
                }),
            decreases self.mods@.len() - i,
        {
            let m = &self.mods[i];
            proof {
                assert(self.mods@.take(i + 1).drop_last() =~= self.mods@.take(i as int));
                assert(self.mods@.take(i + 1).last() == *m);
                lemma_last_named(self.mods@.take(i as int), name@, Some(ModStorage::Unpacked));
                lemma_last_named(self.mods@.take(i as int), name@, None);
            }
            let ghost t = self.mods@.take(i + 1);
            let ghost u0 = last_named(self.mods@.take(i as int), name@, Some(ModStorage::Unpacked));
            let ghost a0 = last_named(self.mods@.take(i as int), name@, None);
            let named = eq_ignore_case(m.name.as_str(), name);
            proof {
                assert(last_named(t, name@, Some(ModStorage::Unpacked)) == if named && m.storage
                    == ModStorage::Unpacked {
                    i as int
                } else {
                    u0
                });
                assert(last_named(t, name@, None) == if named {
                    i as int
                } else {
                    a0
                });
            }
            if named {
                let unpacked = m.storage == ModStorage::Unpacked;
                if unpacked || !best_unpacked {
                    best = Some(i);
                    best_unpacked = unpacked;
                }
            }
            i = i + 1;
        }
        assert(self.mods@.take(self.mods@.len() as int) =~= self.mods@);
        match best {
            Some(b) => Some(&self.mods[b]),
            None => None,
        }
    }

    /// The mod names of the vehicles, sorted without repeats.
    pub fn mod_names(&self) -> (r: Vec<String>)
        ensures
            views(r@) == dedup(sort_strings(self.vehicles@.map_values(|v: VehicleEntry| v.mod_name@))),
    {
        let ghost names = self.vehicles@.map_values(|v: VehicleEntry| v.mod_name@);
        let mut all: Vec<String> = Vec::new();
        let mut i: usize = 0;
        while i < self.vehicles.len()
            invariant
                i <= self.vehicles@.len(),
                names == self.vehicles@.map_values(|v: VehicleEntry| v.mod_name@),
                views(all@) == names.take(i as int),
            decreases self.vehicles@.len() - i,
        {
            let ghost prev = views(all@);
            all.push(self.vehicles[i].mod_name.clone());
            proof {
                assert(views(all@) =~= prev.push(self.vehicles@[i as int].mod_name@));
                assert(names.take(i + 1) =~= names.take(i as int).push(names[i as int]));
            }
            i = i + 1;
        }
        assert(names.take(self.vehicles@.len() as int) =~= names);
        let sorted = sort_string_vec(all);
        dedup_vec(sorted)
    }

    /// The backup key of the config being edited.
    pub fn vehicle_key(&self) -> (r: Option<String>)
        ensures
            opt_view(r) == match self.edit_buffer {
                Some(b) => Some(
                    match file_stem(b.path@) {
                        Some(s) => s,
                        None => "unknown"@,
                    },
                ),
                None => None,
            },
    {
        match &self.edit_buffer {
            Some(b) => Some(vehicle_key_from_path(b.path.as_str())),
            None => None,
        }
    }
}

impl AppState {
    /// The name a save is recorded under: the selected vehicle's (the first
    /// with the selected id), `vehicle` when none is selected or found.
    pub open spec fn selected_name(self) -> Seq<char> {
        match self.selected_id {
            Some(id) => {
                let k = first_with_id(self.vehicles@, id@);
                if k < self.vehicles@.len() {
                    self.vehicles@[k].name@
                } else {
                    "vehicle"@
                }
            },
            None => "vehicle"@,
        }
    }
}

/// Position of the first vehicle with id `id`, or the number of vehicles.
pub open spec fn first_with_id(vs: Seq<VehicleEntry>, id: Seq<char>) -> int
    decreases vs.len(),
{
    if vs.len() == 0 {
        0
    } else if vs[0].id@ == id {
        0
    } else {
        1 + first_with_id(vs.drop_first(), id)
    }
}

proof fn lemma_first_with_id(vs: Seq<VehicleEntry>, id: Seq<char>)
    ensures
        0 <= first_with_id(vs, id) <= vs.len(),
        forall|j: int| 0 <= j < first_with_id(vs, id) ==> #[trigger] vs[j].id@ != id,
        first_with_id(vs, id) < vs.len() ==> vs[first_with_id(vs, id)].id@ == id,
    decreases vs.len(),
{
    if vs.len() > 0 && vs[0].id@ != id {
        lemma_first_with_id(vs.drop_first(), id);
        assert forall|j: int| 0 <= j < first_with_id(vs, id) implies #[trigger] vs[j].id@ != id by {
            if j > 0 {
                assert(vs[j] == vs.drop_first()[j - 1]);
            }
        }
    }
}

/// Position of the last mod named `name` (ASCII case ignored) of the given
/// storage (any when none), or -1.
pub open spec fn last_named(ms: Seq<ModEntry>, name: Seq<char>, storage: Option<ModStorage>) -> int
    decreases ms.len(),
{
    if ms.len() == 0 {
        -1
    } else if eq_ci(ms.last().name@, name) && match storage {
        Some(st) => ms.last().storage == st,
        None => true,
    } {
        ms.len() - 1
    } else {
        last_named(ms.drop_last(), name, storage)
    }
}

proof fn lemma_last_named(ms: Seq<ModEntry>, name: Seq<char>, storage: Option<ModStorage>)
    ensures
        -1 <= last_named(ms, name, storage) < ms.len(),
        last_named(ms, name, storage) <= last_named(ms, name, None),
    decreases ms.len(),
{
    if ms.len() > 0 {
        lemma_last_named(ms.drop_last(), name, storage);
        lemma_last_named(ms.drop_last(), name, None);
    }
}

// ---------------------------------------------------------------------------
// Editing and the undo history
// ---------------------------------------------------------------------------

impl UndoSnapshot {
    /// A copy of the snapshot.
    pub fn copy(&self) -> (r: UndoSnapshot)
        ensures
            cfg(r.config) == cfg(self.config),
            r.label@ == self.label@,
    {
        UndoSnapshot { config: self.config.copy(), label: self.label.clone() }
    }
}

impl AppState {
    /// Saves the edit buffer on the undo stack (see [`push_undo_post`]).
    pub fn push_undo(&mut self, label: String)
        ensures
            push_undo_post(*old(self), *final(self), label@),
    {
        let snap = match &self.edit_buffer {
            Some(buf) => UndoSnapshot { config: buf.copy(), label },
            None => {
                return;
            },
        };
        let ghost c = cfg(snap.config);
        let ghost before = snaps(self.undo_stack@);
        self.undo_stack.push(snap);
        assert(snaps(self.undo_stack@) =~= before.push((c, label@)));
        self.redo_stack.clear();
        if self.undo_stack.len() > UNDO_LIMIT {
            let ghost full = self.undo_stack@;
            self.undo_stack.remove(0);
            proof {
                full.remove_ensures(0);
                assert(snaps(self.undo_stack@) =~= before.push((c, label@)).drop_first());
            }
        }
    }

    /// Makes the slot edits the assignments of the edit buffer (none
    /// without a buffer).
    pub fn sync_slot_edits(&mut self)
        ensures
            final(self).slot_edits.map() == match old(self).edit_buffer {
                Some(b) => b.parts.map(),
                None => Map::<Seq<char>, Seq<char>>::empty(),
            },
            *final(self) == (AppState { slot_edits: final(self).slot_edits, ..*old(self) }),
    {
        let mut edits = SlotMap::new();
        match &self.edit_buffer {
            Some(buf) => {
                buf.parts.reveal_sorted();
                let ghost ps = buf.parts.pairs();
                let n = buf.parts.len();
                let mut i: usize = 0;
                assert(ps.take(0) =~= Seq::<(Seq<char>, Seq<char>)>::empty());
                assert(pairs_map(ps.take(0)) =~= Map::<Seq<char>, Seq<char>>::empty());
                while i < n
                    invariant
                        i <= n,
                        n == ps.len(),
                        ps == buf.parts.pairs(),
                        crate::slots::keys_sorted(ps),
                        edits.map() == pairs_map(ps.take(i as int)),
                    decreases n - i,
                {
                    let (k, v) = buf.parts.entry_at(i);
                    proof {
                        lemma_pairs_map_take(ps, i as int);
                    }
                    edits.insert(k.clone(), v.clone());
                    i = i + 1;
                }
                assert(ps.take(n as int) =~= ps);
            },
            None => {},
        }
        self.slot_edits = edits;
    }

    /// Applies every slot edit to the edit buffer (in slot order).
    pub fn apply_slot_edits(&mut self)
        ensures
            match old(self).edit_buffer {
                Some(b) => final(self).edit_buffer matches Some(nb) && nb.parts.map() == b.parts.map().union_prefer_right(
                    old(self).slot_edits.map(),
                ) && nb.path@ == b.path@ && raw_after_edits(
                    b.raw.model(),
                    b.parts.map(),
                    old(self).slot_edits.pairs(),
                    nb.raw.model(),
                ),
                None => final(self).edit_buffer is None,
            },
            *final(self) == (AppState { edit_buffer: final(self).edit_buffer, ..*old(self) }),
    {
        let mut taken: Option<VehicleConfig> = None;
        std::mem::swap(&mut taken, &mut self.edit_buffer);
        match taken {
            Some(mut b) => {
                self.slot_edits.reveal_sorted();
                let ghost ps = self.slot_edits.pairs();
                let ghost base = b.parts.map();
                let ghost path = b.path@;
                let ghost raw0 = b.raw.model();
                let n = self.slot_edits.len();
                let mut i: usize = 0;
                assert(ps.take(0) =~= Seq::<(Seq<char>, Seq<char>)>::empty());
                assert(base.union_prefer_right(pairs_map(ps.take(0))) =~= base);
                proof {
                    match raw0 {
                        JsonModel::Object(es) => match crate::json::entries_get(es, "parts"@) {
                            Some(JsonModel::Object(pes)) => {
                                crate::json::lemma_entries_set_same(es, "parts"@, JsonModel::Object(pes));
                            },
                            _ => {},
                        },
                        _ => {},
                    }
                }
                assert(raw_after_edits(raw0, base, ps.take(0), b.raw.model()));
                while i < n
                    invariant
                        i <= n,
                        n == ps.len(),
                        ps == self.slot_edits.pairs(),
                        crate::slots::keys_sorted(ps),
                        b.parts.map() == base.union_prefer_right(pairs_map(ps.take(i as int))),
                        b.path@ == path,
                        raw_after_edits(raw0, base, ps.take(i as int), b.raw.model()),
                    decreases n - i,
                {
                    let (slot, part) = self.slot_edits.entry_at(i);
                    proof {
                        lemma_pairs_map_take(ps, i as int);
                    }
                    let ghost before = b.raw.model();
                    b.set_part(slot.as_str(), part.as_str());
                    b.parts.reveal_sorted();
                    proof {
                        if i == 0 {
                            assert(pairs_map(ps.take(0)) =~= Map::<Seq<char>, Seq<char>>::empty());
                            assert(base.union_prefer_right(pairs_map(ps.take(0))) =~= base);
                        }
                        lemma_raw_after_edits_push(raw0, base, ps.take(i as int), before, slot@, part@, b.parts.pairs());
                        assert(ps.take(i + 1) =~= ps.take(i as int).push((slot@, part@)));
                    }
                    assert(b.parts.map() =~= base.union_prefer_right(pairs_map(ps.take(i + 1))));
                    i = i + 1;
                }
                assert(ps.take(n as int) =~= ps);
                self.edit_buffer = Some(b);
            },
            None => {},
        }
    }

    /// Returns to the state saved on top of the undo stack (see [`undo_post`]).
    pub fn undo(&mut self)
        ensures
            undo_post(*old(self), *final(self)),
            *final(self) == (AppState {
                undo_stack: final(self).undo_stack,
                redo_stack: final(self).redo_stack,
                edit_buffer: final(self).edit_buffer,
                slot_edits: final(self).slot_edits,
                toasts: final(self).toasts,
                dirty: final(self).dirty,
                ..*old(self)
            }),
    {
        if self.undo_stack.len() == 0 {
            return;
        }
        let ghost from0 = snaps(self.undo_stack@);
        let ghost to0 = snaps(self.redo_stack@);
        let snapshot = match self.undo_stack.pop() {
            Some(s) => s,
            None => {
                return;
            },
        };
        assert(snaps(self.undo_stack@) =~= from0.drop_last());
        let mut current: Option<VehicleConfig> = None;
        std::mem::swap(&mut current, &mut self.edit_buffer);
        match current {
            Some(c) => {
                let ghost cv = cfg(c);
                self.redo_stack.push(UndoSnapshot { config: c, label: "redo point".to_owned() });
                assert(snaps(self.redo_stack@) =~= to0.push((cv, "redo point"@)));
            },
            None => {},
        }
        let label = snapshot.label;
        self.edit_buffer = Some(snapshot.config);
        self.sync_slot_edits();
        self.dirty = true;
        self.push_toast(Toast::info(concat("Undo: ", label.as_str())));
    }

    /// Returns to the state saved on top of the redo stack (see [`redo_post`]).
    pub fn redo(&mut self)
        ensures
            redo_post(*old(self), *final(self)),
            *final(self) == (AppState {
                undo_stack: final(self).undo_stack,
                redo_stack: final(self).redo_stack,
                edit_buffer: final(self).edit_buffer,
                slot_edits: final(self).slot_edits,
                toasts: final(self).toasts,
                dirty: final(self).dirty,
                ..*old(self)
            }),
    {
        if self.redo_stack.len() == 0 {
            return;
        }
        let ghost from0 = snaps(self.redo_stack@);
        let ghost to0 = snaps(self.undo_stack@);
        let snapshot = match self.redo_stack.pop() {
            Some(s) => s,
            None => {
                return;
            },
        };
        assert(snaps(self.redo_stack@) =~= from0.drop_last());
        let mut current: Option<VehicleConfig> = None;
        std::mem::swap(&mut current, &mut self.edit_buffer);
        match current {
            Some(c) => {
                let ghost cv = cfg(c);
                self.undo_stack.push(UndoSnapshot { config: c, label: "undo point".to_owned() });
                assert(snaps(self.undo_stack@) =~= to0.push((cv, "undo point"@)));
            },
            None => {},
        }
        self.edit_buffer = Some(snapshot.config);
        self.sync_slot_edits();
        self.dirty = true;
        self.push_toast(Toast::info("Redo".to_owned()));
    }
}

// ---------------------------------------------------------------------------
// Laws of the undo history
// ---------------------------------------------------------------------------

/// Undo brings back the buffer saved by the last `push_undo`, whatever was
/// edited in between (the history itself left alone).
pub proof fn law_undo_restores_saved_buffer(s0: AppState, s1: AppState, s2: AppState, s3: AppState, label: Seq<char>)
    requires
        s0.edit_buffer is Some,
        push_undo_post(s0, s1, label),
        snaps(s2.undo_stack@) == snaps(s1.undo_stack@),
        undo_post(s2, s3),
    ensures
        buf_view(s3.edit_buffer) == buf_view(s0.edit_buffer),
{
    let c = s0.edit_buffer->0;
    let pushed = snaps(s0.undo_stack@).push((cfg(c), label));
    assert(pushed.last() == (cfg(c), label));
    if pushed.len() > UNDO_LIMIT {
        assert(pushed.drop_first().last() == pushed.last());
    }
}

/// Redo right after undo brings back the buffer that undo replaced, and
/// leaves the redo stack as it was before the undo.
pub proof fn law_redo_after_undo(s0: AppState, s1: AppState, s2: AppState)
    requires
        s0.undo_stack@.len() > 0,
        s0.edit_buffer is Some,
        undo_post(s0, s1),
        redo_post(s1, s2),
    ensures
        buf_view(s2.edit_buffer) == buf_view(s0.edit_buffer),
        snaps(s2.redo_stack@) == snaps(s0.redo_stack@),
{
    let c = s0.edit_buffer->0;
    assert(snaps(s1.redo_stack@) == snaps(s0.redo_stack@).push((cfg(c), "redo point"@)));
    assert(snaps(s1.redo_stack@).drop_last() =~= snaps(s0.redo_stack@));
}

/// The undo stack never grows past fifty steps, and saving a step clears
/// the redo stack.
pub proof fn law_push_undo_bounded(s0: AppState, s1: AppState, label: Seq<char>)
    requires
        s0.undo_stack@.len() <= UNDO_LIMIT,
        push_undo_post(s0, s1, label),
    ensures
        s1.undo_stack@.len() <= UNDO_LIMIT,
        s0.edit_buffer is Some ==> s1.redo_stack@.len() == 0,
{
    assert(snaps(s1.undo_stack@).len() == s1.undo_stack@.len());
}

/// At most five notifications are kept, the newest last.
pub proof fn law_toasts_bounded(toasts: Seq<Toast>, t: Toast)
    ensures
        keep_last(toasts.push(t), TOAST_LIMIT as nat).len() <= TOAST_LIMIT,
        keep_last(toasts.push(t), TOAST_LIMIT as nat).last() == t,
{
}

// ---------------------------------------------------------------------------
// Scans
// ---------------------------------------------------------------------------

/// `new` is `old` after a vehicle scan finished with `total` configs, of
/// which `skipped` were skipped: the status line and a notification say
/// so, and a parts scan is requested when none ran.
pub open spec fn scan_finished_post(old: AppState, new: AppState, total: usize, skipped: usize) -> bool {
    let n = decimal(old.vehicles@.len() as nat);
    &&& new.status_message@ == "Found "@ + decimal(total as nat) + " .pc configs ("@ + n + " vehicles loaded)"@
    &&& toast_msgs(new.toasts@) == keep_last(
        toast_msgs(old.toasts@).push(
            if skipped > 0 {
                "Scan complete: "@ + n + " vehicles ("@ + decimal(skipped as nat) + " configs skipped)"@
            } else {
                "Scan complete: "@ + n + " vehicles"@
            },
        ),
        TOAST_LIMIT as nat,
    )
    &&& new.requests.parts_scan == (old.requests.parts_scan || (!old.scan.parts_scan_done
        && !old.scan.parts_scanning && old.parts_index.all_by_id@.len() == 0))
    &&& new.vehicles@ == old.vehicles@
    &&& new.requests == (UiRequests { parts_scan: new.requests.parts_scan, ..old.requests })
    &&& new == (AppState {
        status_message: new.status_message,
        toasts: new.toasts,
        requests: new.requests,
        ..old
    })
}

impl AppState {
    fn finish_scan(&mut self, total: usize, skipped: usize)
        ensures
            scan_finished_post(*old(self), *final(self), total, skipped),
    {
        let (status, text) = scan_finished_texts(self.vehicles.len(), total, skipped);
        self.status_message = status;
        self.push_toast(Toast::info(text));
        if !self.scan.parts_scan_done && !self.scan.parts_scanning && self.parts_index.all_by_id.len() == 0 {
            self.requests.parts_scan = true;
        }
    }
}

/// The status line and the notification of a finished vehicle scan.
fn scan_finished_texts(loaded: usize, total: usize, skipped: usize) -> (r: (String, String))
    ensures
        r.0@ == "Found "@ + decimal(total as nat) + " .pc configs ("@ + decimal(loaded as nat) + " vehicles loaded)"@,
        r.1@ == if skipped > 0 {
            "Scan complete: "@ + decimal(loaded as nat) + " vehicles ("@ + decimal(skipped as nat) + " configs skipped)"@
        } else {
            "Scan complete: "@ + decimal(loaded as nat) + " vehicles"@
        },
{
    let n = count_text(loaded);
    let mut status = "Found ".to_owned();
    status.append(count_text(total).as_str());
    status.append(" .pc configs (");
    status.append(n.as_str());
    status.append(" vehicles loaded)");
    let mut text = "Scan complete: ".to_owned();
    text.append(n.as_str());
    if skipped > 0 {
        text.append(" vehicles (");
        text.append(count_text(skipped).as_str());
        text.append(" configs skipped)");
    } else {
        text.append(" vehicles");
    }
    (status, text)
}

/// The text of a count.
fn count_text(n: usize) -> (r: String)
    ensures
        r@ == decimal(n as nat),
{
    u64_to_decimal(n as u64)
}

/// `x` inserted before the first mod whose name follows its name.
pub open spec fn insert_mod_by_name(s: Seq<ModEntry>, x: ModEntry) -> Seq<ModEntry>
    decreases s.len(),
{
    if s.len() == 0 {
        seq![x]
    } else if seq_lt(x.name@, s[0].name@) {
        seq![x] + s
    } else {
        seq![s[0]] + insert_mod_by_name(s.drop_first(), x)
    }
}

/// Mods by name (stable).
pub open spec fn sort_mods_by_name(s: Seq<ModEntry>) -> Seq<ModEntry>
    decreases s.len(),
{
    if s.len() == 0 {
        s
    } else {
        insert_mod_by_name(sort_mods_by_name(s.drop_last()), s.last())
    }
}

proof fn lemma_insert_mod_by_name_at(s: Seq<ModEntry>, x: ModEntry, j: int)
    requires
        0 <= j <= s.len(),
        forall|k: int| 0 <= k < j ==> !seq_lt(x.name@, #[trigger] s[k].name@),
        j < s.len() ==> seq_lt(x.name@, s[j].name@),
    ensures
        insert_mod_by_name(s, x) == s.insert(j, x),
    decreases j,
{
    if j > 0 {
        let t = s.drop_first();
        assert forall|k: int| 0 <= k < j - 1 implies !seq_lt(x.name@, #[trigger] t[k].name@) by {
            assert(t[k] == s[k + 1]);
        }
        if j < s.len() {
            assert(t[j - 1] == s[j]);
        }
        lemma_insert_mod_by_name_at(t, x, j - 1);
        assert(insert_mod_by_name(s, x) =~= s.insert(j, x));
    } else {
        assert(insert_mod_by_name(s, x) =~= s.insert(0, x));
    }
}

fn sort_mod_entries(v: Vec<ModEntry>) -> (r: Vec<ModEntry>)
    ensures
        r@ == sort_mods_by_name(v@),
{
    let ghost orig = v@;
    let mut rest = v;
    let mut out: Vec<ModEntry> = Vec::new();
    let ghost mut taken: int = 0;
    while rest.len() > 0
        invariant
            0 <= taken <= orig.len(),
            rest@ == orig.skip(taken),
            out@ == sort_mods_by_name(orig.take(taken)),
        decreases rest@.len(),
    {
        let ghost before_rest = rest@;
        let x = rest.remove(0);
        proof {
            before_rest.remove_ensures(0);
            assert(rest@ =~= orig.skip(taken + 1));
            assert(x == orig[taken]);
            assert(orig.take(taken + 1).drop_last() =~= orig.take(taken));
        }
        let mut j: usize = 0;
        while j < out.len() && !str_lt(x.name.as_str(), out[j].name.as_str())
            invariant
                j <= out@.len(),
                forall|k: int| 0 <= k < j ==> !seq_lt(x.name@, #[trigger] out@[k].name@),
            decreases out@.len() - j,
        {
            j = j + 1;
        }
        proof {
            lemma_insert_mod_by_name_at(out@, x, j as int);
        }
        out.insert(j, x);
        proof {
            taken = taken + 1;
        }
    }
    assert(orig.take(taken) =~= orig) by {
        assert(orig.skip(taken).len() == 0);
    }
    out
}

impl AppState {
    /// Starts a vehicle scan when there is anywhere to scan (the lists are
    /// emptied and both scans marked running); otherwise notifies why not.
    /// Whether the scans are to be started.
    pub fn start_scan(&mut self, fs: &DirProbe) -> (r: bool)
        ensures
            r == crate::scanner::scannable(old(self).settings, *fs),
            r ==> final(self).vehicles@.len() == 0 && final(self).mods@.len() == 0 && final(self).scan.scanning
                && final(self).scan.mod_scanning && final(self).status_message@ == "Scanning…"@,
            !r ==> toast_msgs(final(self).toasts@) == keep_last(
                toast_msgs(old(self).toasts@).push("Set BeamNG user folder or BeamNG.exe in Settings first"@),
                TOAST_LIMIT as nat,
            ),
            !r ==> *final(self) == (AppState { toasts: final(self).toasts, ..*old(self) }),
            r ==> final(self).scan == (ScanStatus { scanning: true, mod_scanning: true, ..old(self).scan }),
            r ==> *final(self) == (AppState {
                scan: final(self).scan,
                vehicles: final(self).vehicles,
                mods: final(self).mods,
                status_message: final(self).status_message,
                ..*old(self)
            }),
    {
        if !self.settings.can_scan(fs) {
            self.push_toast(Toast::error("Set BeamNG user folder or BeamNG.exe in Settings first".to_owned()));
            return false;
        }
        self.scan.scanning = true;
        self.scan.mod_scanning = true;
        self.vehicles = Vec::new();
        self.mods = Vec::new();
        self.status_message = "Scanning…".to_owned();
        true
    }

    /// Takes one report of the vehicle scan; whether it was the last.
    pub fn on_scan_message(&mut self, msg: ScanMessage) -> (r: bool)
        ensures
            match msg {
                ScanMessage::Progress { current, message } => !r && *final(self) == (AppState {
                    scan: ScanStatus { scan_progress: Some((current, message)), ..old(self).scan },
                    ..*old(self)
                }),
                ScanMessage::Vehicle(v) => !r && final(self).vehicles@ == old(self).vehicles@.push(v) && *final(self)
                    == (AppState { vehicles: final(self).vehicles, ..*old(self) }),
                ScanMessage::Finished { total, skipped } => r && scan_finished_post(*old(self), *final(self), total, skipped),
                ScanMessage::Skipped => !r && *final(self) == *old(self),
                ScanMessage::Error(e) => !r && toast_msgs(final(self).toasts@) == keep_last(
                    toast_msgs(old(self).toasts@).push(e@),
                    TOAST_LIMIT as nat,
                ) && *final(self) == (AppState { toasts: final(self).toasts, ..*old(self) }),
            },
    {
        match msg {
            ScanMessage::Progress { current, message } => {
                self.scan.scan_progress = Some((current, message));
                false
            },
            ScanMessage::Vehicle(v) => {
                self.vehicles.push(v);
                false
            },
            ScanMessage::Finished { total, skipped } => {
                self.finish_scan(total, skipped);
                true
            },
            ScanMessage::Skipped => false,
            ScanMessage::Error(e) => {
                self.push_toast(Toast::error(e));
                false
            },
        }
    }

    /// Takes the reports of the vehicle scan received since the last frame;
    /// once the last came, the scan is marked over. Whether it is over.
    pub fn poll_scan(&mut self, messages: Vec<ScanMessage>) -> (r: bool)
        ensures
            r == exists|k: int| 0 <= k < messages@.len() && messages@[k] is Finished,
            r ==> !final(self).scan.scanning && final(self).scan.scan_progress is None,
            final(self).scan == (ScanStatus { scanning: final(self).scan.scanning, scan_progress: final(self).scan.scan_progress, ..old(self).scan }),
            *final(self) == (AppState {
                vehicles: final(self).vehicles,
                status_message: final(self).status_message,
                toasts: final(self).toasts,
                requests: final(self).requests,
                scan: final(self).scan,
                ..*old(self)
            }),
    {
        let mut finished = false;
        let mut rest = messages;
        let ghost orig = rest@;
        let ghost mut taken: int = 0;
        while rest.len() > 0
            invariant
                0 <= taken <= orig.len(),
                rest@ == orig.skip(taken),
                finished == exists|k: int| 0 <= k < taken && orig[k] is Finished,
                self.scan == (ScanStatus { scanning: self.scan.scanning, scan_progress: self.scan.scan_progress, ..old(self).scan }),
                *self == (AppState {
                    vehicles: self.vehicles,
                    status_message: self.status_message,
                    toasts: self.toasts,
                    requests: self.requests,
                    scan: self.scan,
                    ..*old(self)
                }),
            decreases rest@.len(),
        {
            let ghost before_rest = rest@;
            let msg = rest.remove(0);
            proof {
                before_rest.remove_ensures(0);
                assert(msg == orig[taken]);
                assert(rest@ =~= orig.skip(taken + 1));
            }
            let ghost was_finished = msg is Finished;
            if self.on_scan_message(msg) {
                finished = true;
            }
            proof {
                taken = taken + 1;
            }
        }
        assert(taken == orig.len()) by {
            assert(orig.skip(taken).len() == 0);
        }
        if finished {
            self.scan.scanning = false;
            self.scan.scan_progress = None;
        }
        finished
    }

    /// Takes one report of the mod scan; whether it was the last. At the end
    /// the mods are ordered by name and, when none is selected, the first is.
    pub fn on_mod_scan_message(&mut self, msg: ModScanMessage) -> (r: bool)
        ensures
            match msg {
                ModScanMessage::Progress { current, message } => !r && *final(self) == (AppState {
                    scan: ScanStatus { mod_scan_progress: Some((current, message)), ..old(self).scan },
                    ..*old(self)
                }),
                ModScanMessage::Mod(m) => !r && final(self).mods@ == old(self).mods@.push(m) && *final(self)
                    == (AppState { mods: final(self).mods, ..*old(self) }),
                ModScanMessage::Finished { .. } => {
                    let sorted = sort_mods_by_name(old(self).mods@);
                    &&& r
                    &&& final(self).mods@ == sorted
                    &&& opt_view(final(self).selected_mod_id) == match old(self).selected_mod_id {
                        Some(id) => Some(id@),
                        None => if sorted.len() > 0 {
                            Some(sorted[0].id@)
                        } else {
                            None
                        },
                    }
                    &&& *final(self) == (AppState {
                        mods: final(self).mods,
                        selected_mod_id: final(self).selected_mod_id,
                        ..*old(self)
                    })
                },
                ModScanMessage::Error(e) => !r && toast_msgs(final(self).toasts@) == keep_last(
                    toast_msgs(old(self).toasts@).push(e@),
                    TOAST_LIMIT as nat,
                ) && *final(self) == (AppState { toasts: final(self).toasts, ..*old(self) }),
            },
    {
        match msg {
            ModScanMessage::Progress { current, message } => {
                self.scan.mod_scan_progress = Some((current, message));
                false
            },
            ModScanMessage::Mod(m) => {
                self.mods.push(m);
                false
            },
            ModScanMessage::Finished { .. } => {
                let mut mods: Vec<ModEntry> = Vec::new();
                std::mem::swap(&mut mods, &mut self.mods);
                self.mods = sort_mod_entries(mods);
                if self.selected_mod_id.is_none() && self.mods.len() > 0 {
                    self.selected_mod_id = Some(self.mods[0].id.clone());
                }
                true
            },
            ModScanMessage::Error(e) => {
                self.push_toast(Toast::error(e));
                false
            },
        }
    }

    /// Takes the reports of the mod scan received since the last frame; once
    /// the last came, the scan is marked over. Whether it is over.
    pub fn poll_mod_scan(&mut self, messages: Vec<ModScanMessage>) -> (r: bool)
        ensures
            r == exists|k: int| 0 <= k < messages@.len() && messages@[k] is Finished,
            r ==> !final(self).scan.mod_scanning && final(self).scan.mod_scan_progress is None,
            final(self).scan == (ScanStatus { mod_scanning: final(self).scan.mod_scanning, mod_scan_progress: final(self).scan.mod_scan_progress, ..old(self).scan }),
            *final(self) == (AppState {
                mods: final(self).mods,
                selected_mod_id: final(self).selected_mod_id,
                toasts: final(self).toasts,
                scan: final(self).scan,
                ..*old(self)
            }),
    {
        let mut finished = false;
        let mut rest = messages;
        let ghost orig = rest@;
        let ghost mut taken: int = 0;
        while rest.len() > 0
            invariant
                0 <= taken <= orig.len(),
                rest@ == orig.skip(taken),
                finished == exists|k: int| 0 <= k < taken && orig[k] is Finished,
                self.scan == (ScanStatus { mod_scanning: self.scan.mod_scanning, mod_scan_progress: self.scan.mod_scan_progress, ..old(self).scan }),
                *self == (AppState {
                    mods: self.mods,
                    selected_mod_id: self.selected_mod_id,
                    toasts: self.toasts,
                    scan: self.scan,
                    ..*old(self)
                }),
            decreases rest@.len(),
        {
            let ghost before_rest = rest@;
            let msg = rest.remove(0);
            proof {
                before_rest.remove_ensures(0);
                assert(msg == orig[taken]);
                assert(rest@ =~= orig.skip(taken + 1));
            }
            if self.on_mod_scan_message(msg) {
                finished = true;
            }
            proof {
                taken = taken + 1;
            }
        }
        assert(taken == orig.len()) by {
            assert(orig.skip(taken).len() == 0);
        }
        if finished {
            self.scan.mod_scanning = false;
            self.scan.mod_scan_progress = None;
        }
        finished
    }
}

impl AppState {
    /// Starts a parts scan unless one is running; refused (with a
    /// notification) when there is nowhere to scan. Whether it starts.
    pub fn start_parts_scan(&mut self, fs: &DirProbe) -> (r: bool)
        ensures
            r == (crate::scanner::scannable(old(self).settings, *fs) && !old(self).scan.parts_scanning),
            r ==> final(self).scan.parts_scanning && !final(self).scan.parts_scan_done && final(self).parts_collect@.len()
                == 0,
            !crate::scanner::scannable(old(self).settings, *fs) ==> toast_msgs(final(self).toasts@) == keep_last(
                toast_msgs(old(self).toasts@).push("Set BeamNG user folder or BeamNG.exe in Settings"@),
                TOAST_LIMIT as nat,
            ),
            crate::scanner::scannable(old(self).settings, *fs) && old(self).scan.parts_scanning ==> *final(self)
                == *old(self),
            !crate::scanner::scannable(old(self).settings, *fs) ==> *final(self) == (AppState {
                toasts: final(self).toasts,
                ..*old(self)
            }),
            r ==> *final(self) == (AppState {
                scan: ScanStatus { parts_scanning: true, parts_scan_done: false, ..old(self).scan },
                parts_collect: final(self).parts_collect,
                ..*old(self)
            }),
    {
        if !self.settings.can_scan(fs) {
            self.push_toast(Toast::error("Set BeamNG user folder or BeamNG.exe in Settings".to_owned()));
            return false;
        }
        if self.scan.parts_scanning {
            return false;
        }
        self.scan.parts_scanning = true;
        self.scan.parts_scan_done = false;
        self.parts_collect = Vec::new();
        true
    }

    /// Takes one report of the parts scan; whether the scan ended (finished
    /// or failed). At the end the index is built from the parts collected.
    pub fn on_parts_scan_message(&mut self, msg: PartsScanMessage) -> (r: bool)
        ensures
            match msg {
                PartsScanMessage::Progress { scanned, message } => !r && *final(self) == (AppState {
                    scan: ScanStatus { parts_scan_progress: Some((scanned, message)), ..old(self).scan },
                    ..*old(self)
                }),
                PartsScanMessage::Part(p) => !r && final(self).parts_collect@ == old(self).parts_collect@.push(p)
                    && *final(self) == (AppState { parts_collect: final(self).parts_collect, ..*old(self) }),
                PartsScanMessage::Finished { .. } => {
                    let pv = crate::parts::part_views(old(self).parts_collect@);
                    &&& r
                    &&& crate::parts::part_views(final(self).parts_index.engines@) == crate::parts::sort_parts(
                        crate::parts::engines_of(pv),
                        false,
                    )
                    &&& crate::parts::id_views(final(self).parts_index.all_by_id@) == crate::parts::id_table(pv)
                    &&& crate::parts::group_views(final(self).parts_index.by_slot_type@)
                        == crate::parts::sorted_slot_table(crate::parts::slot_table(pv))
                    &&& crate::parts::mod_views(final(self).parts_index.engine_mods@) == crate::parts::engine_mods_of(
                        crate::parts::mod_table(pv),
                    )
                    &&& final(self).parts_collect@.len() == 0
                    &&& *final(self) == (AppState {
                        parts_index: final(self).parts_index,
                        parts_collect: final(self).parts_collect,
                        toasts: final(self).toasts,
                        ..*old(self)
                    })
                    &&& toast_msgs(final(self).toasts@) == keep_last(
                        toast_msgs(old(self).toasts@).push(
                            "Loaded "@ + decimal(final(self).parts_index.engines@.len() as nat) + " engines from mods"@,
                        ),
                        TOAST_LIMIT as nat,
                    )
                },
                PartsScanMessage::Error(e) => r && toast_msgs(final(self).toasts@) == keep_last(
                    toast_msgs(old(self).toasts@).push(e@),
                    TOAST_LIMIT as nat,
                ) && *final(self) == (AppState { toasts: final(self).toasts, ..*old(self) }),
            },
    {
        match msg {
            PartsScanMessage::Progress { scanned, message } => {
                self.scan.parts_scan_progress = Some((scanned, message));
                false
            },
            PartsScanMessage::Part(p) => {
                self.parts_collect.push(p);
                false
            },
            PartsScanMessage::Finished { .. } => {
                let mut parts: Vec<PartEntry> = Vec::new();
                std::mem::swap(&mut parts, &mut self.parts_collect);
                self.parts_index = PartsIndex::finalize_from_parts(parts);
                let mut text = "Loaded ".to_owned();
                text.append(count_text(self.parts_index.engines.len()).as_str());
                text.append(" engines from mods");
                self.push_toast(Toast::info(text));
                true
            },
            PartsScanMessage::Error(e) => {
                self.push_toast(Toast::error(e));
                true
            },
        }
    }

    /// Takes the reports of the parts scan received since the last frame;
    /// once it ended, it is marked over and done. Whether it ended.
    pub fn poll_parts_scan(&mut self, messages: Vec<PartsScanMessage>) -> (r: bool)
        ensures
            r == exists|k: int| 0 <= k < messages@.len() && (messages@[k] is Finished || messages@[k] is Error),
            r ==> !final(self).scan.parts_scanning && final(self).scan.parts_scan_done
                && final(self).scan.parts_scan_progress is None,
            final(self).scan == (ScanStatus { parts_scanning: final(self).scan.parts_scanning, parts_scan_done: final(self).scan.parts_scan_done, parts_scan_progress: final(self).scan.parts_scan_progress, ..old(self).scan }),
            *final(self) == (AppState {
                parts_index: final(self).parts_index,
                parts_collect: final(self).parts_collect,
                toasts: final(self).toasts,
                scan: final(self).scan,
                ..*old(self)
            }),
    {
        let mut ended = false;
        let mut rest = messages;
        let ghost orig = rest@;
        let ghost mut taken: int = 0;
        while rest.len() > 0
            invariant
                0 <= taken <= orig.len(),
                rest@ == orig.skip(taken),
                ended == exists|k: int| 0 <= k < taken && (orig[k] is Finished || orig[k] is Error),
                self.scan == (ScanStatus { parts_scanning: self.scan.parts_scanning, parts_scan_done: self.scan.parts_scan_done, parts_scan_progress: self.scan.parts_scan_progress, ..old(self).scan }),
                *self == (AppState {
                    parts_index: self.parts_index,
                    parts_collect: self.parts_collect,
                    toasts: self.toasts,
                    scan: self.scan,
                    ..*old(self)
                }),
            decreases rest@.len(),
        {
            let ghost before_rest = rest@;
            let msg = rest.remove(0);
            proof {
                before_rest.remove_ensures(0);
                assert(msg == orig[taken]);
                assert(rest@ =~= orig.skip(taken + 1));
            }
            if self.on_parts_scan_message(msg) {
                ended = true;
            }
            proof {
                taken = taken + 1;
            }
        }
        assert(taken == orig.len()) by {
            assert(orig.skip(taken).len() == 0);
        }
        if ended {
            self.scan.parts_scanning = false;
            self.scan.parts_scan_done = true;
            self.scan.parts_scan_progress = None;
        }
        ended
    }

    /// Takes a config just read for the vehicle named `name`: it becomes
    /// both the loaded config and the edit buffer, the history is cleared,
    /// the editor tab is shown, and a parts scan is requested when none ran.
    pub fn vehicle_loaded(&mut self, name: &str, config: VehicleConfig, location: VehicleLocation)
        ensures
            buf_view(final(self).edit_buffer) == Some(cfg(config)),
            buf_view(final(self).loaded_config) == Some(cfg(config)),
            final(self).loaded_location matches Some(l) && l@ == location@,
            final(self).slot_edits.map() == config.parts.map(),
            !final(self).dirty,
            final(self).undo_stack@.len() == 0,
            final(self).redo_stack@.len() == 0,
            final(self).tab == AppTab::Editor,
            final(self).status_message@ == "Loaded "@ + name@,
            toast_msgs(final(self).toasts@) == keep_last(
                toast_msgs(old(self).toasts@).push("Editing "@ + name@),
                TOAST_LIMIT as nat,
            ),
            final(self).requests.parts_scan == (old(self).requests.parts_scan || (!old(self).scan.parts_scan_done
                && !old(self).scan.parts_scanning && old(self).parts_index.all_by_id@.len() == 0)),
            final(self).panel.slot_filter@.len() == 0,
            final(self).panel == (PanelState { slot_filter: final(self).panel.slot_filter, ..old(self).panel }),
            final(self).requests == (UiRequests { parts_scan: final(self).requests.parts_scan, ..old(self).requests }),
            *final(self) == (AppState {
                loaded_config: final(self).loaded_config,
                edit_buffer: final(self).edit_buffer,
                loaded_location: final(self).loaded_location,
                slot_edits: final(self).slot_edits,
                panel: final(self).panel,
                dirty: final(self).dirty,
                undo_stack: final(self).undo_stack,
                redo_stack: final(self).redo_stack,
                status_message: final(self).status_message,
                toasts: final(self).toasts,
                tab: final(self).tab,
                requests: final(self).requests,
                ..*old(self)
            }),
    {
        self.loaded_config = Some(config.copy());
        self.edit_buffer = Some(config);
        self.loaded_location = Some(location);
        self.sync_slot_edits();
        self.panel.slot_filter = String::new();
        self.dirty = false;
        self.undo_stack = Vec::new();
        self.redo_stack = Vec::new();
        self.status_message = concat("Loaded ", name);
        self.push_toast(Toast::info(concat("Editing ", name)));
        self.tab = AppTab::Editor;
        if !self.scan.parts_scan_done && !self.scan.parts_scanning && self.parts_index.all_by_id.len() == 0 {
            self.requests.parts_scan = true;
        }
    }

    /// Assigns the engine `engine_id` to the buffer's engine slot (the
    /// `mainEngine` slot when it has none), as an undoable step. Nothing
    /// happens without an edit buffer.
    pub fn assign_engine(&mut self, engine_id: &str)
        ensures
            old(self).edit_buffer is None ==> *final(self) == *old(self),
            old(self).edit_buffer matches Some(b) ==> ({
                let slot = match crate::config::engine_slot_of(b.parts.map(), b.parts.keys()) {
                    Some(s) => s,
                    None => "mainEngine"@,
                };
                &&& final(self).slot_edits.map() == old(self).slot_edits.map().insert(slot, engine_id@)
                &&& final(self).edit_buffer matches Some(nb) && nb.parts.map() == b.parts.map().union_prefer_right(
                    old(self).slot_edits.map().insert(slot, engine_id@),
                ) && raw_after_edits(b.raw.model(), b.parts.map(), final(self).slot_edits.pairs(), nb.raw.model())
                &&& *final(self) == (AppState {
                    undo_stack: final(self).undo_stack,
                    redo_stack: final(self).redo_stack,
                    slot_edits: final(self).slot_edits,
                    edit_buffer: final(self).edit_buffer,
                    dirty: final(self).dirty,
                    toasts: final(self).toasts,
                    ..*old(self)
                })
                &&& snaps(final(self).undo_stack@).last() == (cfg(b), "Assign engine "@ + engine_id@)
                &&& final(self).redo_stack@.len() == 0
                &&& final(self).dirty
                &&& toast_msgs(final(self).toasts@) == keep_last(
                    toast_msgs(old(self).toasts@).push("Assigned "@ + engine_id@ + " to "@ + slot),
                    TOAST_LIMIT as nat,
                )
            }),
    {
        let slot = match &self.edit_buffer {
            Some(buf) => match buf.engine_slot() {
                Some((s, _)) => s,
                None => "mainEngine".to_owned(),
            },
            None => {
                return;
            },
        };
        let ghost s0 = *self;
        self.push_undo(concat("Assign engine ", engine_id));
        proof {
            let c = s0.edit_buffer->0;
            let pushed = snaps(s0.undo_stack@).push((cfg(c), "Assign engine "@ + engine_id@));
            assert(pushed.last() == (cfg(c), "Assign engine "@ + engine_id@));
            if pushed.len() > UNDO_LIMIT {
                assert(pushed.drop_first().last() == pushed.last());
            }
        }
        let ghost undo_after = snaps(self.undo_stack@);
        self.slot_edits.insert(slot.clone(), engine_id.to_owned());
        self.apply_slot_edits();
        self.dirty = true;
        let mut text = concat("Assigned ", engine_id);
        text.append(" to ");
        text.append(slot.as_str());
        self.push_toast(Toast::info(text));
    }

    /// Notifies how a "restore all" went, from each restore's success, and
    /// requests a rescan.
    pub fn restore_all_done(&mut self, results: &Vec<bool>)
        ensures
            final(self).requests.rescan,
            toast_msgs(final(self).toasts@) == keep_last(
                toast_msgs(old(self).toasts@).push(
                    "Restore all: "@ + decimal(results@.filter(|b: bool| b).len()) + " ok, "@ + decimal(
                        results@.filter(|b: bool| !b).len(),
                    ) + " failed"@,
                ),
                TOAST_LIMIT as nat,
            ),
            final(self).requests == (UiRequests { rescan: true, ..old(self).requests }),
            *final(self) == (AppState { toasts: final(self).toasts, requests: final(self).requests, ..*old(self) }),
    {
        let mut ok: usize = 0;
        let mut fail: usize = 0;
        let mut i: usize = 0;
        while i < results.len()
            invariant
                i <= results@.len(),
                ok == results@.take(i as int).filter(|b: bool| b).len(),
                fail == results@.take(i as int).filter(|b: bool| !b).len(),
                ok + fail == i,
            decreases results@.len() - i,
        {
            proof {
                assert(results@.take(i + 1) =~= results@.take(i as int).push(results@[i as int]));
                results@.take(i as int).lemma_filter_push(results@[i as int], |b: bool| b);
                results@.take(i as int).lemma_filter_push(results@[i as int], |b: bool| !b);
            }
            if results[i] {
                ok = ok + 1;
            } else {
                fail = fail + 1;
            }
            i = i + 1;
        }
        assert(results@.take(results@.len() as int) =~= results@);
        let mut text = "Restore all: ".to_owned();
        text.append(count_text(ok).as_str());
        text.append(" ok, ");
        text.append(count_text(fail).as_str());
        text.append(" failed");
        self.push_toast(Toast::info(text));
        self.requests.rescan = true;
    }

    /// Whether edits made outside the editor should be looked for: hot
    /// reload is on and there is an unmodified edit buffer.
    pub fn wants_external_check(&self) -> (r: bool)
        ensures
            r == (self.settings.hot_reload_external_changes && self.edit_buffer is Some && !self.dirty),
    {
        self.settings.hot_reload_external_changes && self.edit_buffer.is_some() && !self.dirty
    }

    /// Takes the config read again from disk: when its document changed, it
    /// replaces the buffer and the loaded config, and is notified.
    pub fn external_change(&mut self, updated: VehicleConfig) -> (r: bool)
        ensures
            old(self).edit_buffer matches Some(b) ==> r == (updated.raw.model() != b.raw.model()),
            old(self).edit_buffer is None ==> !r && *final(self) == *old(self),
            r ==> buf_view(final(self).edit_buffer) == Some(cfg(updated)) && buf_view(final(self).loaded_config)
                == Some(cfg(updated)) && final(self).slot_edits.map() == updated.parts.map() && toast_msgs(
                final(self).toasts@,
            ) == keep_last(toast_msgs(old(self).toasts@).push("Reloaded external changes"@), TOAST_LIMIT as nat),
            r ==> *final(self) == (AppState {
                edit_buffer: final(self).edit_buffer,
                loaded_config: final(self).loaded_config,
                slot_edits: final(self).slot_edits,
                toasts: final(self).toasts,
                ..*old(self)
            }),
            !r ==> *final(self) == *old(self),
    {
        let mut taken: Option<VehicleConfig> = None;
        std::mem::swap(&mut taken, &mut self.edit_buffer);
        match taken {
            Some(mut b) => {
                let ghost u = cfg(updated);
                let ghost um = updated.parts.map();
                let changed = b.reload_if_changed(updated);
                if changed {
                    self.loaded_config = Some(b.copy());
                    self.edit_buffer = Some(b);
                    self.sync_slot_edits();
                    self.push_toast(Toast::info("Reloaded external changes".to_owned()));
                } else {
                    self.edit_buffer = Some(b);
                }
                changed
            },
            None => false,
        }
    }
}

/// What applying the edits needs: the config to save and back up, with the
/// vehicle's name, its backup key, and how many backups it has.
#[derive(Debug)]
pub struct ApplyPlan {
    pub config: VehicleConfig,
    pub vehicle_name: String,
    pub vehicle_key: String,
    pub existing: usize,
}

/// One step of saving the edits, in the order they are carried out.
#[derive(Debug)]
pub enum ApplyStep {
    /// Copy the config into the backups with this reason, as backup number
    /// `existing + 1`; `record` says whether the backup joins the index.
    Backup { reason: String, existing: usize, record: bool },
    /// Write the edited config over its file.
    Save,
    /// Write the saved file back to where the config came from.
    WriteBack,
}

/// The steps of saving `plan`: a backup before the first edit of a vehicle
/// without backups, a backup before every apply, then the save and the
/// write-back, so the original file is copied before it is overwritten.
pub fn apply_steps(index: &BackupIndex, plan: &ApplyPlan) -> (r: Vec<ApplyStep>)
    ensures
        ({
            let key = match file_stem(plan.config.path@) {
                Some(s) => s,
                None => "unknown"@,
            };
            let first = index.backups(key).len() == 0;
            let n = r@.len();
            &&& n == if first { 4int } else { 3int }
            &&& first ==> (r@[0] matches ApplyStep::Backup { reason, existing, record } && reason@
                == "initial auto-backup before first edit"@ && existing == 0 && !record)
            &&& r@[n - 3] matches ApplyStep::Backup { reason, existing, record } && reason@ == "before apply"@
                && existing == plan.existing && record
            &&& r@[n - 2] is Save
            &&& r@[n - 1] is WriteBack
        }),
{
    let mut steps: Vec<ApplyStep> = Vec::new();
    match crate::backup::BackupManager::ensure_initial_backup(index, plan.config.path.as_str()) {
        Some(reason) => {
            steps.push(ApplyStep::Backup { reason, existing: 0, record: false });
        },
        None => {},
    }
    steps.push(ApplyStep::Backup { reason: "before apply".to_owned(), existing: plan.existing, record: true });
    steps.push(ApplyStep::Save);
    steps.push(ApplyStep::WriteBack);
    steps
}

impl AppState {
    /// Applies the slot edits to the buffer and plans saving it: named
    /// after the selected vehicle (`vehicle` when none); nothing without a
    /// buffer.
    pub fn prepare_apply(&mut self) -> (r: Option<ApplyPlan>)
        ensures
            old(self).edit_buffer is None <==> r is None,
            r matches Some(p) ==> buf_view(final(self).edit_buffer) == Some(cfg(p.config)) && p.vehicle_key@ == match file_stem(
                p.config.path@,
            ) {
                Some(s) => s,
                None => "unknown"@,
            } && p.existing == old(self).backup_index.backups(p.vehicle_key@).len() && p.vehicle_name@
                == old(self).selected_name(),
            *final(self) == (AppState { edit_buffer: final(self).edit_buffer, ..*old(self) }),
            old(self).edit_buffer matches Some(b) ==> final(self).edit_buffer matches Some(nb) && nb.parts.map()
                == b.parts.map().union_prefer_right(old(self).slot_edits.map()) && raw_after_edits(
                b.raw.model(),
                b.parts.map(),
                old(self).slot_edits.pairs(),
                nb.raw.model(),
            ),
    {
        self.apply_slot_edits();
        let config = match &self.edit_buffer {
            Some(b) => b.copy(),
            None => {
                return None;
            },
        };
        let vehicle_name = match self.selected_vehicle() {
            Some(v) => v.name.clone(),
            None => "vehicle".to_owned(),
        };
        proof {
            reveal_strlit("vehicle");
            if self.selected_id is Some {
                lemma_first_with_id(self.vehicles@, self.selected_id->0@);
            }
        }
        let vehicle_key = vehicle_key_from_path(config.path.as_str());
        let list = self.backup_index.backups_for(vehicle_key.as_str());
        let existing = list.len();
        assert(crate::backup::infos(list@).len() == existing);
        Some(ApplyPlan { config, vehicle_name, vehicle_key, existing })
    }

    /// Takes the config just saved at `path`: it becomes the loaded config
    /// and the buffer, the editor is clean, and the save is notified.
    pub fn changes_saved(&mut self, saved: VehicleConfig)
        ensures
            buf_view(final(self).edit_buffer) == Some(cfg(saved)),
            buf_view(final(self).loaded_config) == Some(cfg(saved)),
            !final(self).dirty,
            final(self).status_message@ == "Saved "@ + saved.path@,
            toast_msgs(final(self).toasts@) == keep_last(
                toast_msgs(old(self).toasts@).push("Changes applied and saved"@),
                TOAST_LIMIT as nat,
            ),
            *final(self) == (AppState {
                edit_buffer: final(self).edit_buffer,
                loaded_config: final(self).loaded_config,
                dirty: final(self).dirty,
                status_message: final(self).status_message,
                toasts: final(self).toasts,
                ..*old(self)
            }),
    {
        self.status_message = concat("Saved ", saved.path.as_str());
        self.loaded_config = Some(saved.copy());
        self.edit_buffer = Some(saved);
        self.dirty = false;
        self.push_toast(Toast::info("Changes applied and saved".to_owned()));
    }
}

/// What came of carrying out one step of saving the edits.
#[derive(Debug)]
pub enum StepOutcome {
    /// The step was carried out.
    Done,
    /// The backup of the step was written, with this metadata.
    BackupWritten(BackupMetadata),
    /// The step failed with this message.
    Failed(String),
}

/// What to do next while saving the edits.
#[derive(Debug, Clone, Copy, PartialEq, Eq, Structural)]
pub enum ApplyAction {
    /// Carry out the step with this index.
    Run(usize),
    /// Every step was carried out: the edits are saved.
    Finish,
    /// A step failed: the steps after it are not carried out.
    Abort,
}

/// The action after step `done` of `len` steps, by whether it failed: stop
/// at a failure, else go on with the next step, else finish.
pub open spec fn apply_action(len: nat, done: nat, failed: bool) -> ApplyAction {
    if failed {
        ApplyAction::Abort
    } else if done + 1 < len {
        ApplyAction::Run((done + 1) as usize)
    } else {
        ApplyAction::Finish
    }
}

/// The action reached after steps `0..=k` of `len` steps, starting with
/// step 0 and following each action, where `failed[j]` says whether step
/// `j` failed when it was carried out.
pub open spec fn action_after(len: nat, failed: Seq<bool>, k: int) -> ApplyAction
    decreases k + 1,
{
    if k < 0 {
        ApplyAction::Run(0)
    } else {
        match action_after(len, failed, k - 1) {
            ApplyAction::Run(j) => if j == k {
                apply_action(len, k as nat, failed[k])
            } else {
                ApplyAction::Run(j)
            },
            other => other,
        }
    }
}

/// The message shown when `step` fails with `m`.
pub open spec fn step_failure_message(step: ApplyStep, m: Seq<char>) -> Seq<char> {
    match step {
        ApplyStep::Backup { record, .. } => if record {
            "Backup failed: "@ + m
        } else {
            "Initial backup failed: "@ + m
        },
        ApplyStep::Save => "Save failed: "@ + m,
        ApplyStep::WriteBack => "Write-back failed: "@ + m,
    }
}

/// Saving stops at the first failed step: following the actions from step
/// 0, step `k + 1` is the next one only when steps `0..=k` all succeeded, and
/// the save finishes only when every step succeeded. With the steps of
/// [`apply_steps`], the config is written (the step before the write-back)
/// only after every backup step succeeded.
pub proof fn law_apply_stops_at_first_failure(len: nat, failed: Seq<bool>, k: int)
    requires
        0 <= k < failed.len(),
        k < len,
        len <= usize::MAX,
    ensures
        action_after(len, failed, k) matches ApplyAction::Run(i) ==> i == k + 1 && forall|j: int|
            0 <= j <= k ==> !#[trigger] failed[j],
        action_after(len, failed, k) is Finish ==> k + 1 == len && forall|j: int| 0 <= j <= k ==> !#[trigger] failed[j],
        (exists|j: int| 0 <= j <= k && #[trigger] failed[j]) ==> action_after(len, failed, k) is Abort,
    decreases k,
{
    if k > 0 {
        law_apply_stops_at_first_failure(len, failed, k - 1);
    }
    let prev = action_after(len, failed, k - 1);
    if k == 0 {
        assert(prev == ApplyAction::Run(0));
    }
    if let ApplyAction::Run(i) = prev {
        assert(i == k);
        if !failed[k] {
            assert forall|j: int| 0 <= j <= k implies !#[trigger] failed[j] by {
                if j < k {
                    assert(!failed[j]);
                }
            }
        }
    }
    if exists|j: int| 0 <= j <= k && #[trigger] failed[j] {
        let j = choose|j: int| 0 <= j <= k && #[trigger] failed[j];
        if j < k {
            assert(prev is Abort);
        }
    }
}

impl AppState {
    /// Takes the outcome of step `done` of `steps` (the steps of saving
    /// `plan`) and says what to do next. A failed step shows an error and
    /// stops the save, with nothing else changed: the edits stay as they
    /// were, unsaved. A backup that joins the index is added to it. After
    /// the last step the config is taken as saved (see
    /// [`AppState::changes_saved`]).
    pub fn apply_next(&mut self, plan: &ApplyPlan, steps: &Vec<ApplyStep>, done: usize, outcome: StepOutcome) -> (a:
        ApplyAction)
        requires
            done < steps@.len(),
        ensures
            a == apply_action(steps@.len(), done as nat, outcome is Failed),
            outcome matches StepOutcome::Failed(m) ==> {
                &&& toast_msgs(final(self).toasts@) == keep_last(
                    toast_msgs(old(self).toasts@).push(step_failure_message(steps@[done as int], m@)),
                    TOAST_LIMIT as nat,
                )
                &&& final(self).toasts@.last().is_error
                &&& *final(self) == (AppState { toasts: final(self).toasts, ..*old(self) })
            },
            !(outcome is Failed) ==> {
                &&& match (steps@[done as int], outcome) {
                    (ApplyStep::Backup { record: true, .. }, StepOutcome::BackupWritten(meta)) => {
                        &&& final(self).backup_index.backups(meta.vehicle_key@) == old(
                            self,
                        ).backup_index.backups(meta.vehicle_key@).push(meta@)
                        &&& forall|k: Seq<char>|
                            k != meta.vehicle_key@ ==> #[trigger] final(self).backup_index.backups(k) == old(
                                self,
                            ).backup_index.backups(k)
                    },
                    _ => final(self).backup_index == old(self).backup_index,
                }
                &&& done + 1 < steps@.len() ==> *final(self) == (AppState {
                    backup_index: final(self).backup_index,
                    ..*old(self)
                })
                &&& done + 1 == steps@.len() ==> {
                    &&& buf_view(final(self).edit_buffer) == Some(cfg(plan.config))
                    &&& buf_view(final(self).loaded_config) == Some(cfg(plan.config))
                    &&& !final(self).dirty
                    &&& final(self).status_message@ == "Saved "@ + plan.config.path@
                    &&& toast_msgs(final(self).toasts@) == keep_last(
                        toast_msgs(old(self).toasts@).push("Changes applied and saved"@),
                        TOAST_LIMIT as nat,
                    )
                    &&& *final(self) == (AppState {
                        backup_index: final(self).backup_index,
                        edit_buffer: final(self).edit_buffer,
                        loaded_config: final(self).loaded_config,
                        dirty: final(self).dirty,
                        status_message: final(self).status_message,
                        toasts: final(self).toasts,
                        ..*old(self)
                    })
                }
            },
    {
        match outcome {
            StepOutcome::Failed(m) => {
                let text = match &steps[done] {
                    ApplyStep::Backup { record, .. } => if *record {
                        concat("Backup failed: ", m.as_str())
                    } else {
                        concat("Initial backup failed: ", m.as_str())
                    },
                    ApplyStep::Save => concat("Save failed: ", m.as_str()),
                    ApplyStep::WriteBack => concat("Write-back failed: ", m.as_str()),
                };
                let t = Toast::error(text);
                self.push_toast(t);
                proof {
                    lemma_keep_last_push_last(old(self).toasts@, t, TOAST_LIMIT as nat);
                }
                return ApplyAction::Abort;
            },
            StepOutcome::BackupWritten(meta) => {
                if let ApplyStep::Backup { record: true, .. } = &steps[done] {
                    self.backup_index.push_backup(meta);
                }
            },
            StepOutcome::Done => {},
        }
        if done < steps.len() - 1 {
            ApplyAction::Run(done + 1)
        } else {
            self.changes_saved(plan.config.copy());
            ApplyAction::Finish
        }
    }
}

proof fn lemma_keep_last_push_last<T>(s: Seq<T>, x: T, n: nat)
    requires
        n > 0,
    ensures
        keep_last(s.push(x), n).last() == x,
{
}

} // verus!
