//! Persisted paths and where the editor looks for vehicles and mods.
//!
//! Which directories exist is read from the file system by the caller and
//! handed over as a [`DirProbe`].
use vstd::prelude::*;

use crate::error::AppError;

use crate::paths::{file_name, file_name_of, join, join_path, parent, parent_of};
use crate::text::{eq_ci, eq_ignore_case, str_eq, views};

verus! {

/// The settings file name.
pub open spec fn settings_file_name() -> Seq<char> {
    "settings.json"@
}

/// The directories known to exist, and the `LOCALAPPDATA` location.
#[derive(Debug)]
pub struct DirProbe {
    /// The value of `LOCALAPPDATA`, when set.
    pub local_app_data: Option<String>,
    /// Directories that exist.
    pub existing_dirs: Vec<String>,
}

impl DirProbe {
    /// Whether `p` is a directory.
    pub open spec fn has_dir(self, p: Seq<char>) -> bool {
        views(self.existing_dirs@).contains(p)
    }

    /// Whether `path` is a directory.
    pub fn is_dir(&self, path: &str) -> (r: bool)
        ensures
            r == self.has_dir(path@),
    {
        let mut i: usize = 0;
        while i < self.existing_dirs.len()
            invariant
                i <= self.existing_dirs@.len(),
                forall|k: int| 0 <= k < i ==> #[trigger] views(self.existing_dirs@)[k] != path@,
            decreases self.existing_dirs@.len() - i,
        {
            if str_eq(self.existing_dirs[i].as_str(), path) {
                assert(views(self.existing_dirs@)[i as int] == path@);
                return true;
            }
            i = i + 1;
        }
        false
    }

    /// The default BeamNG user folder under `LOCALAPPDATA`.
    pub open spec fn user_dir_candidate(self) -> Option<Seq<char>> {
        match self.local_app_data {
            Some(l) => Some(join(join(join(l@, "BeamNG"@), "BeamNG.drive"@), "current"@)),
            None => None,
        }
    }

    /// The detected BeamNG user folder: the default one, when it exists.
    pub open spec fn detected(self) -> Option<Seq<char>> {
        match self.user_dir_candidate() {
            Some(c) => if self.has_dir(c) {
                Some(c)
            } else {
                None
            },
            None => None,
        }
    }
}

/// `<local>/BeamNG/BeamNG.drive/current`.
pub fn user_dir_candidate_of(local: &str) -> (r: String)
    ensures
        r@ == join(join(join(local@, "BeamNG"@), "BeamNG.drive"@), "current"@),
{
    let a = join_path(local, "BeamNG");
    let b = join_path(a.as_str(), "BeamNG.drive");
    join_path(b.as_str(), "current")
}

/// The game folder for an executable: the executable's folder, or the one
/// above it when that folder is `Bin64`, `BinWin64` or `BinLinux` (any case).
pub open spec fn game_root_of(exe: Seq<char>) -> Option<Seq<char>> {
    match parent(exe) {
        None => None,
        Some(dir) => if is_bin_dir_name(file_name(dir)) {
            parent(dir)
        } else {
            Some(dir)
        },
    }
}

/// Whether a folder name is one of the engine binary folders.
pub open spec fn is_bin_dir_name(name: Option<Seq<char>>) -> bool {
    match name {
        Some(n) => eq_ci(n, "Bin64"@) || eq_ci(n, "BinWin64"@) || eq_ci(n, "BinLinux"@),
        None => false,
    }
}

/// The game folder for an executable path.
pub fn resolve_game_root(exe: &str) -> (r: Option<String>)
    ensures
        match r {
            Some(p) => game_root_of(exe@) == Some(p@),
            None => game_root_of(exe@) is None,
        },
{
    let dir = match parent_of(exe) {
        Some(d) => d,
        None => return None,
    };
    let is_bin = match file_name_of(dir.as_str()) {
        Some(name) => eq_ignore_case(name.as_str(), "Bin64") || eq_ignore_case(name.as_str(), "BinWin64")
            || eq_ignore_case(name.as_str(), "BinLinux"),
        None => false,
    };
    if is_bin {
        parent_of(dir.as_str())
    } else {
        Some(dir)
    }
}

/// The optional-path form of a view.
pub open spec fn opt_view(o: Option<String>) -> Option<Seq<char>> {
    match o {
        Some(s) => Some(s@),
        None => None,
    }
}

/// A path, when it is a directory.
pub open spec fn existing(fs: DirProbe, p: Option<Seq<char>>) -> Option<Seq<char>> {
    match p {
        Some(d) => if fs.has_dir(d) {
            Some(d)
        } else {
            None
        },
        None => None,
    }
}

/// `p` joined with `name`, when `p` is present.
pub open spec fn join_opt(p: Option<Seq<char>>, name: Seq<char>) -> Option<Seq<char>> {
    match p {
        Some(d) => Some(join(d, name)),
        None => None,
    }
}

/// Editor settings.
#[derive(Debug)]
pub struct AppSettings {
    /// BeamNG user folder, e.g. `%LocalAppData%/BeamNG/BeamNG.drive/current`.
    pub beamng_user_path: Option<String>,
    /// Optional override for the mods folder.
    pub mods_vehicles_path: Option<String>,
    /// The game executable.
    pub beamng_exe_path: Option<String>,
    /// Whether edits made outside the editor are picked up.
    pub hot_reload_external_changes: bool,
}

fn clone_opt(o: &Option<String>) -> (r: Option<String>)
    ensures
        opt_view(r) == opt_view(*o),
{
    match o {
        Some(s) => Some(s.clone()),
        None => None,
    }
}

fn existing_exec(fs: &DirProbe, p: Option<String>) -> (r: Option<String>)
    ensures
        opt_view(r) == existing(*fs, opt_view(p)),
{
    match p {
        Some(d) => if fs.is_dir(d.as_str()) {
            Some(d)
        } else {
            None
        },
        None => None,
    }
}

impl AppSettings {
    /// The user folder in effect: the configured one when it exists, else the detected one.
    pub open spec fn spec_effective_user_dir(self, fs: DirProbe) -> Option<Seq<char>> {
        match existing(fs, opt_view(self.beamng_user_path)) {
            Some(d) => Some(d),
            None => fs.detected(),
        }
    }

    /// The mods folder: `<user>/mods` when it exists; else the configured
    /// mods path when it is a directory: itself when named `mods`, else its
    /// `mods` subfolder when that exists, else itself.
    pub open spec fn spec_mods_dir(self, fs: DirProbe) -> Option<Seq<char>> {
        match existing(fs, join_opt(self.spec_effective_user_dir(fs), "mods"@)) {
            Some(m) => Some(m),
            None => match opt_view(self.mods_vehicles_path) {
                Some(p) => if !fs.has_dir(p) {
                    None
                } else if file_name(p) == Some("mods"@) {
                    Some(p)
                } else if fs.has_dir(join(p, "mods"@)) {
                    Some(join(p, "mods"@))
                } else {
                    Some(p)
                },
                None => None,
            },
        }
    }

    /// The game folder.
    pub open spec fn spec_game_root(self) -> Option<Seq<char>> {
        match opt_view(self.beamng_exe_path) {
            Some(exe) => game_root_of(exe),
            None => None,
        }
    }

    /// Saved configs: `<user>/vehicles`, when it exists.
    pub open spec fn spec_saved_vehicles_dir(self, fs: DirProbe) -> Option<Seq<char>> {
        existing(fs, join_opt(self.spec_effective_user_dir(fs), "vehicles"@))
    }

    /// Stock vehicle packs: `<game>/content/vehicles`, when it exists.
    pub open spec fn spec_game_vehicles_dir(self, fs: DirProbe) -> Option<Seq<char>> {
        existing(fs, join_opt(join_opt(self.spec_game_root(), "content"@), "vehicles"@))
    }

    /// Loose installs in the game folder: `<game>/vehicles`, when it exists.
    pub open spec fn spec_game_loose_vehicles_dir(self, fs: DirProbe) -> Option<Seq<char>> {
        existing(fs, join_opt(self.spec_game_root(), "vehicles"@))
    }

    /// Settings with the user folder set to the detected one.
    pub fn with_detected_user_dir(fs: &DirProbe) -> (s: AppSettings)
        ensures
            opt_view(s.beamng_user_path) == fs.detected(),
            s.mods_vehicles_path is None,
            s.beamng_exe_path is None,
            !s.hot_reload_external_changes,
    {
        AppSettings {
            beamng_user_path: Self::detect_user_dir(fs),
            mods_vehicles_path: None,
            beamng_exe_path: None,
            hot_reload_external_changes: false,
        }
    }

    /// Fills in the detected user folder when none is configured.
    pub fn fill_missing_user_dir(&mut self, fs: &DirProbe)
        ensures
            opt_view(final(self).beamng_user_path) == match opt_view(old(self).beamng_user_path) {
                Some(p) => Some(p),
                None => fs.detected(),
            },
            opt_view(final(self).mods_vehicles_path) == opt_view(old(self).mods_vehicles_path),
            opt_view(final(self).beamng_exe_path) == opt_view(old(self).beamng_exe_path),
            final(self).hot_reload_external_changes == old(self).hot_reload_external_changes,
    {
        if self.beamng_user_path.is_none() {
            self.beamng_user_path = Self::detect_user_dir(fs);
        }
    }

    /// A copy of the settings.
    pub fn copy(&self) -> (s: AppSettings)
        ensures
            opt_view(s.beamng_user_path) == opt_view(self.beamng_user_path),
            opt_view(s.mods_vehicles_path) == opt_view(self.mods_vehicles_path),
            opt_view(s.beamng_exe_path) == opt_view(self.beamng_exe_path),
            s.hot_reload_external_changes == self.hot_reload_external_changes,
    {
        AppSettings {
            beamng_user_path: clone_opt(&self.beamng_user_path),
            mods_vehicles_path: clone_opt(&self.mods_vehicles_path),
            beamng_exe_path: clone_opt(&self.beamng_exe_path),
            hot_reload_external_changes: self.hot_reload_external_changes,
        }
    }

    /// The user folder in effect.
    pub fn effective_user_dir(&self, fs: &DirProbe) -> (r: Option<String>)
        ensures
            opt_view(r) == self.spec_effective_user_dir(*fs),
    {
        match existing_exec(fs, clone_opt(&self.beamng_user_path)) {
            Some(d) => Some(d),
            None => Self::detect_user_dir(fs),
        }
    }

    /// The BeamNG user folder.
    pub fn beamng_user_dir(&self, fs: &DirProbe) -> (r: Option<String>)
        ensures
            opt_view(r) == self.spec_effective_user_dir(*fs),
    {
        self.effective_user_dir(fs)
    }

    /// The mods folder.
    pub fn mods_dir(&self, fs: &DirProbe) -> (r: Option<String>)
        ensures
            opt_view(r) == self.spec_mods_dir(*fs),
    {
        if let Some(user) = self.effective_user_dir(fs) {
            let mods = join_path(user.as_str(), "mods");
            if fs.is_dir(mods.as_str()) {
                return Some(mods);
            }
        }
        if let Some(path) = &self.mods_vehicles_path {
            if fs.is_dir(path.as_str()) {
                let is_mods = match file_name_of(path.as_str()) {
                    Some(n) => str_eq(n.as_str(), "mods"),
                    None => false,
                };
                if is_mods {
                    return Some(path.clone());
                }
                let mods = join_path(path.as_str(), "mods");
                if fs.is_dir(mods.as_str()) {
                    return Some(mods);
                }
                return Some(path.clone());
            }
        }
        None
    }

    /// The mods folder (same as [`AppSettings::mods_dir`]).
    pub fn mods_path(&self, fs: &DirProbe) -> (r: Option<String>)
        ensures
            opt_view(r) == self.spec_mods_dir(*fs),
    {
        self.mods_dir(fs)
    }

    /// The folder of saved configs.
    pub fn saved_vehicles_dir(&self, fs: &DirProbe) -> (r: Option<String>)
        ensures
            opt_view(r) == self.spec_saved_vehicles_dir(*fs),
    {
        match self.effective_user_dir(fs) {
            Some(u) => existing_exec(fs, Some(join_path(u.as_str(), "vehicles"))),
            None => None,
        }
    }

    /// The game folder, from the executable path.
    pub fn game_root(&self) -> (r: Option<String>)
        ensures
            opt_view(r) == self.spec_game_root(),
    {
        match &self.beamng_exe_path {
            Some(exe) => resolve_game_root(exe.as_str()),
            None => None,
        }
    }

    /// The stock vehicle packs folder.
    pub fn game_vehicles_dir(&self, fs: &DirProbe) -> (r: Option<String>)
        ensures
            opt_view(r) == self.spec_game_vehicles_dir(*fs),
    {
        match self.game_root() {
            Some(root) => {
                let content = join_path(root.as_str(), "content");
                existing_exec(fs, Some(join_path(content.as_str(), "vehicles")))
            },
            None => None,
        }
    }

    /// The game folder's loose vehicles folder.
    pub fn game_loose_vehicles_dir(&self, fs: &DirProbe) -> (r: Option<String>)
        ensures
            opt_view(r) == self.spec_game_loose_vehicles_dir(*fs),
    {
        match self.game_root() {
            Some(root) => existing_exec(fs, Some(join_path(root.as_str(), "vehicles"))),
            None => None,
        }
    }

    /// Whether there is anywhere to scan.
    pub fn can_scan(&self, fs: &DirProbe) -> (r: bool)
        ensures
            r == (self.spec_mods_dir(*fs) is Some || self.spec_saved_vehicles_dir(*fs) is Some
                || self.spec_game_vehicles_dir(*fs) is Some || self.spec_game_loose_vehicles_dir(
                *fs,
            ) is Some),
    {
        self.mods_dir(fs).is_some() || self.saved_vehicles_dir(fs).is_some()
            || self.game_vehicles_dir(fs).is_some() || self.game_loose_vehicles_dir(fs).is_some()
    }

    /// Every directory whose existence the settings' lookups depend on.
    pub fn probe_candidates(&self, local_app_data: Option<&str>) -> (r: Vec<String>)
        ensures
            forall|fs: DirProbe|
                opt_view(fs.local_app_data) == match local_app_data {
                    Some(l) => Some(l@),
                    None => None,
                } ==> {
                    &&& (fs.user_dir_candidate() matches Some(c) ==> views(r@).contains(c))
                    &&& (opt_view(self.beamng_user_path) matches Some(u) ==> views(r@).contains(u))
                    &&& (self.spec_effective_user_dir(fs) matches Some(u) ==> views(r@).contains(
                        join(u, "mods"@),
                    ) && views(r@).contains(join(u, "vehicles"@)))
                },
            opt_view(self.mods_vehicles_path) matches Some(p) ==> views(r@).contains(p) && views(
                r@,
            ).contains(join(p, "mods"@)),
            self.spec_game_root() matches Some(g) ==> views(r@).contains(
                join(join(g, "content"@), "vehicles"@),
            ) && views(r@).contains(join(g, "vehicles"@)),
    {
        let mut out: Vec<String> = Vec::new();
        if let Some(local) = local_app_data {
            let c = user_dir_candidate_of(local);
            out.push(join_path(c.as_str(), "mods"));
            out.push(join_path(c.as_str(), "vehicles"));
            out.push(c);
        }
        if let Some(u) = &self.beamng_user_path {
            out.push(join_path(u.as_str(), "mods"));
            out.push(join_path(u.as_str(), "vehicles"));
            out.push(u.clone());
        }
        if let Some(p) = &self.mods_vehicles_path {
            out.push(join_path(p.as_str(), "mods"));
            out.push(p.clone());
        }
        if let Some(g) = self.game_root() {
            let content = join_path(g.as_str(), "content");
            out.push(join_path(content.as_str(), "vehicles"));
            out.push(join_path(g.as_str(), "vehicles"));
        }
        proof {
            let vs = views(out@);
            assert forall|fs: DirProbe|
                opt_view(fs.local_app_data) == match local_app_data {
                    Some(l) => Some(l@),
                    None => None,
                } implies {
                    &&& (fs.user_dir_candidate() matches Some(c) ==> vs.contains(c))
                    &&& (opt_view(self.beamng_user_path) matches Some(u) ==> vs.contains(u))
                    &&& (self.spec_effective_user_dir(fs) matches Some(u) ==> vs.contains(
                        join(u, "mods"@),
                    ) && vs.contains(join(u, "vehicles"@)))
                } by {
                if let Some(c) = fs.user_dir_candidate() {
                    assert(vs[2] == c);
                }
                let base: int = if local_app_data is Some { 3 } else { 0 };
                if let Some(u) = opt_view(self.beamng_user_path) {
                    assert(vs[base + 2] == u);
                }
                if let Some(u) = self.spec_effective_user_dir(fs) {
                    if existing(fs, opt_view(self.beamng_user_path)) is Some {
                        assert(vs[base] == join(u, "mods"@));
                        assert(vs[base + 1] == join(u, "vehicles"@));
                    } else {
                        assert(vs[0] == join(u, "mods"@));
                        assert(vs[1] == join(u, "vehicles"@));
                    }
                }
            }
            let b2: int = (if local_app_data is Some { 3int } else { 0int }) + (if self.beamng_user_path is Some { 3int } else { 0int });
            if let Some(p) = opt_view(self.mods_vehicles_path) {
                assert(vs[b2] == join(p, "mods"@));
                assert(vs[b2 + 1] == p);
            }
            let b3: int = b2 + (if self.mods_vehicles_path is Some { 2int } else { 0int });
            if let Some(g) = self.spec_game_root() {
                assert(vs[b3] == join(join(g, "content"@), "vehicles"@));
                assert(vs[b3 + 1] == join(g, "vehicles"@));
            }
        }
        out
    }
}

impl AppSettings {
    /// The BeamNG user folder found under `LOCALAPPDATA`, when it exists.
    pub fn detect_user_dir(fs: &DirProbe) -> (r: Option<String>)
        ensures
            match r {
                Some(p) => fs.detected() == Some(p@),
                None => fs.detected() is None,
            },
    {
        match &fs.local_app_data {
            Some(local) => {
                let c = user_dir_candidate_of(local.as_str());
                if fs.is_dir(c.as_str()) {
                    Some(c)
                } else {
                    None
                }
            },
            None => None,
        }
    }

    /// The settings file inside the settings folder.
    pub fn settings_path(settings_dir: &str) -> (r: String)
        ensures
            r@ == join(settings_dir@, settings_file_name()),
    {
        join_path(settings_dir, "settings.json")
    }

    /// `<settings>/backups`.
    pub fn backups_root(settings_dir: &str) -> (r: String)
        ensures
            r@ == join(settings_dir@, "backups"@),
    {
        join_path(settings_dir, "backups")
    }

    /// `<settings>/cache`.
    pub fn cache_root(settings_dir: &str) -> (r: String)
        ensures
            r@ == join(settings_dir@, "cache"@),
    {
        join_path(settings_dir, "cache")
    }

    /// The folder holding the editor's settings (the platform's
    /// configuration folder for the editor); refused when the platform has
    /// none.
    pub fn settings_dir() -> (r: Result<String, AppError>)
        ensures
            r matches Err(e) ==> e.message@ == "Could not resolve settings directory"@,
    {
        match project_config_dir("", "", "beam-ng-vehicle-editor") {
            Some(d) => Ok(d),
            None => Err(AppError::msg("Could not resolve settings directory".to_owned())),
        }
    }

    /// The settings in effect after reading the settings file: the defaults
    /// (with the detected user folder) when there was none (`parsed` is
    /// `None`), else the file's settings with a missing user folder detected.
    pub fn load(parsed: Option<AppSettings>, fs: &DirProbe) -> (r: AppSettings)
        ensures
            match parsed {
                None => opt_view(r.beamng_user_path) == fs.detected() && r.mods_vehicles_path is None
                    && r.beamng_exe_path is None && !r.hot_reload_external_changes,
                Some(p) => opt_view(r.beamng_user_path) == match opt_view(p.beamng_user_path) {
                    Some(u) => Some(u),
                    None => fs.detected(),
                } && opt_view(r.mods_vehicles_path) == opt_view(p.mods_vehicles_path) && opt_view(
                    r.beamng_exe_path,
                ) == opt_view(p.beamng_exe_path) && r.hot_reload_external_changes == p.hot_reload_external_changes,
            },
    {
        match parsed {
            None => Self::with_detected_user_dir(fs),
            Some(mut p) => {
                p.fill_missing_user_dir(fs);
                p
            },
        }
    }
}

/// Calls `directories::ProjectDirs::from` for a project and takes its
/// configuration folder; nothing is stated of it, which depends on the
/// platform and the environment.
#[verifier::external_body]
fn project_config_dir(qualifier: &str, organization: &str, application: &str) -> (r: Option<String>) {
    match directories::ProjectDirs::from(qualifier, organization, application) {
        Some(d) => Some(d.config_dir().to_string_lossy().to_string()),
        None => None,
    }
}

} // verus!

