use vstd::prelude::*;

verus! {

/// One game profile: a name and the location of the game it manages.
/// The location is kept as the path's textual components.
pub struct Profile {
    pub name: String,
    pub gd_path: String,
}

/// The tool's configuration: the selected profile, all known profiles, and
/// the remaining persisted settings.
pub struct Config {
    pub current_profile: Option<String>,
    pub profiles: Vec<Profile>,
    pub default_developer: Option<String>,
    pub sdk_nightly: bool,
}

/// One installation of the legacy configuration layout.
pub struct OldConfigInstallation {
    pub path: String,
    pub executable: String,
}

/// The legacy configuration layout, kept only so that it can be migrated.
pub struct OldConfig {
    pub default_installation: usize,
    pub working_installation: Option<usize>,
    pub installations: Option<Vec<OldConfigInstallation>>,
    pub default_developer: Option<String>,
}

/// Whether a name ends in the Windows executable suffix.
pub open spec fn ends_exe(s: Seq<char>) -> bool {
    s.len() >= 4 && s[s.len() - 4] == '.' && s[s.len() - 3] == 'e' && s[s.len() - 2] == 'x' && s[
        s.len() - 1] == 'e'
}

/// A name with any trailing `.exe` removed.
pub open spec fn strip_exe(s: Seq<char>) -> Seq<char> {
    if ends_exe(s) {
        s.take(s.len() - 4)
    } else {
        s
    }
}

/// Removes a trailing `.exe` from an executable name, if present.
fn strip_exe_suffix(s: &str) -> (r: String)
    ensures
        r@ == strip_exe(s@),
{
    let len = s.unicode_len();
    if len >= 4 && s.get_char(len - 4) == '.' && s.get_char(len - 3) == 'e' && s.get_char(len - 2)
        == 'x' && s.get_char(len - 1) == 'e' {
        let out = s.substring_char(0, len - 4);
        proof {
            assert(out@ =~= strip_exe(s@));
        }
        String::from_str(out)
    } else {
        String::from_str(s)
    }
}

impl OldConfig {
    /// The index of the installation the migrated configuration selects:
    /// the working installation when set, else the default one.
    pub open spec fn spec_selected(&self) -> int {
        match self.working_installation {
            Some(w) => w as int,
            None => self.default_installation as int,
        }
    }

    /// Migrates the legacy layout: every installation becomes a profile
    /// named after its executable without the `.exe` suffix, keeping its
    /// path; the selected installation's name becomes the current profile,
    /// or none when its index is out of range; the default developer is
    /// kept and the nightly flag starts cleared.
    pub fn migrate(&self) -> (c: Config)
        ensures
            ({
                let insts = match self.installations {
                    Some(v) => v@,
                    None => Seq::<OldConfigInstallation>::empty(),
                };
                &&& c.profiles@.len() == insts.len()
                &&& forall|i: int|
                    0 <= i < insts.len() ==> (#[trigger] c.profiles@[i]).name@ == strip_exe(
                        insts[i].executable@,
                    ) && c.profiles@[i].gd_path@ == insts[i].path@
                &&& if 0 <= self.spec_selected() < insts.len() {
                    c.current_profile matches Some(n) && n@ == strip_exe(
                        insts[self.spec_selected()].executable@,
                    )
                } else {
                    c.current_profile is None
                }
                &&& c.sdk_nightly == false
                &&& match (&c.default_developer, &self.default_developer) {
                    (Some(a), Some(b)) => a@ == b@,
                    (None, None) => true,
                    _ => false,
                }
            }),
    {
        let mut profiles: Vec<Profile> = Vec::new();
        match &self.installations {
            Some(insts) => {
                let mut i: usize = 0;
                while i < insts.len()
                    invariant
                        0 <= i <= insts@.len(),
                        profiles@.len() == i,
                        forall|j: int|
                            0 <= j < i ==> (#[trigger] profiles@[j]).name@ == strip_exe(
                                insts@[j].executable@,
                            ) && profiles@[j].gd_path@ == insts@[j].path@,
                    decreases insts@.len() - i,
                {
                    let inst = &insts[i];
                    profiles.push(
                        Profile {
                            name: strip_exe_suffix(inst.executable.as_str()),
                            gd_path: inst.path.clone(),
                        },
                    );
                    i = i + 1;
                }
            },
            None => (),
        }
        let selected = match self.working_installation {
            Some(w) => w,
            None => self.default_installation,
        };
        let current_profile = if selected < profiles.len() {
            Some(profiles[selected].name.clone())
        } else {
            None
        };
        let default_developer = match &self.default_developer {
            Some(d) => Some(d.clone()),
            None => None,
        };
        Config { current_profile, profiles, default_developer, sdk_nightly: false }
    }
}

/// Character-wise string equality.
fn str_eq(a: &str, b: &str) -> (r: bool)
    ensures
        r == (a@ == b@),
{
    let la = a.unicode_len();
    let lb = b.unicode_len();
    if la != lb {
        return false;
    }
    let mut i: usize = 0;
    while i < la
        invariant
            0 <= i <= la,
            la == a@.len() == b@.len(),
            forall|j: int| 0 <= j < i ==> a@[j] == b@[j],
        decreases la - i,
    {
        if a.get_char(i) != b.get_char(i) {
            return false;
        }
        i = i + 1;
    }
    proof {
        assert(a@ =~= b@);
    }
    true
}

impl Config {
    /// Finds the first profile with the given name, if any name was given.
    pub fn get_profile(&self, name: Option<&str>) -> (r: Option<usize>)
        ensures
            match r {
                Some(i) => name is Some && 0 <= i < self.profiles@.len()
                    && self.profiles@[i as int].name@ == name->0@ && (forall|j: int|
                    0 <= j < i ==> (#[trigger] self.profiles@[j]).name@ != name->0@),
                None => name is Some ==> forall|j: int|
                    0 <= j < self.profiles@.len() ==> (#[trigger] self.profiles@[j]).name@
                        != name->0@,
            },
    {
        match name {
            Some(n) => {
                let mut i: usize = 0;
                while i < self.profiles.len()
                    invariant
                        name == Some(n),
                        0 <= i <= self.profiles@.len(),
                        forall|j: int|
                            0 <= j < i ==> (#[trigger] self.profiles@[j]).name@ != n@,
                    decreases self.profiles@.len() - i,
                {
                    let hit = str_eq(self.profiles[i].name.as_str(), n);
                    if hit {
                        return Some(i);
                    }
                    i = i + 1;
                }
                None
            },
            None => None,
        }
    }

    /// Renames a profile: fails when no profile bears the old name or when
    /// the new name is already taken; otherwise the first profile under the
    /// old name takes the new one and everything else stays as it was.
    pub fn rename_profile(&mut self, old_name: &str, new_name: String) -> (r: RenameOutcome)
        ensures
            match r {
                RenameOutcome::NoSuchProfile => *final(self) == *old(self) && (forall|j: int|
                    0 <= j < old(self).profiles@.len() ==> (
                    #[trigger] old(self).profiles@[j]).name@ != old_name@),
                RenameOutcome::NameTaken => *final(self) == *old(self) && (exists|j: int|
                    0 <= j < old(self).profiles@.len() && (
                    #[trigger] old(self).profiles@[j]).name@ == new_name@),
                RenameOutcome::Renamed => {
                    &&& final(self).profiles@.len() == old(self).profiles@.len()
                    &&& exists|i: int|
                        0 <= i < old(self).profiles@.len() && (
                        #[trigger] old(self).profiles@[i]).name@ == old_name@
                            && final(self).profiles@[i].name@ == new_name@ && (forall|j: int|
                            0 <= j < old(self).profiles@.len() && j != i
                                ==> #[trigger] final(self).profiles@[j] == old(self).profiles@[j])
                    &&& final(self).current_profile == old(self).current_profile
                },
            },
    {
        let idx = match self.get_profile(Some(old_name)) {
            Some(i) => i,
            None => {
                return RenameOutcome::NoSuchProfile;
            },
        };
        if self.get_profile(Some(new_name.as_str())).is_some() {
            return RenameOutcome::NameTaken;
        }
        let ghost before = self.profiles@;
        let path = self.profiles[idx].gd_path.clone();
        self.profiles.set(idx, Profile { name: new_name, gd_path: path });
        proof {
            assert(self.profiles@[idx as int].gd_path@ == before[idx as int].gd_path@);
        }
        RenameOutcome::Renamed
    }
}

/// What renaming a profile came to.
pub enum RenameOutcome {
    /// No profile bears the old name.
    NoSuchProfile,
    /// Another profile already bears the new name.
    NameTaken,
    /// The profile now bears the new name.
    Renamed,
}

/// Whether a location is accepted as an installation directory. Every
/// location is currently accepted.
pub fn is_valid__dir(_dir: &str) -> (r: bool)
    ensures
        r == true,
{
    true
}

/// Adjusts a stored game location, given as its path components, to point
/// at the game itself: on Windows a directory gains the game executable's
/// file name, and a warning is due when that executable is not there;
/// elsewhere a path ending in the application bundle's inner directory is
/// cut back to the bundle. The second result says whether to warn.
pub fn migrate_location(
    path: Vec<String>,
    is_windows: bool,
    path_is_dir: bool,
    exe_exists: bool,
) -> (r: (Vec<String>, bool))
    ensures
        is_windows && path_is_dir ==> r.0@.len() == path@.len() + 1 && (forall|j: int|
            0 <= j < path@.len() ==> #[trigger] r.0@[j] == path@[j]) && r.0@.last()@
            == "GeometryDash.exe"@ && r.1 == !exe_exists,
        !(is_windows && path_is_dir) && path@.len() > 0 && path@.last()@ == "Contents"@ ==> r.0@
            =~= path@.drop_last() && r.1 == false,
        !(is_windows && path_is_dir) && !(path@.len() > 0 && path@.last()@ == "Contents"@) ==> r.0@
            == path@ && r.1 == false,
{
    let mut path = path;
    if is_windows && path_is_dir {
        let exe = String::from_str("GeometryDash.exe");
        path.push(exe);
        (path, !exe_exists)
    } else {
        let n = path.len();
        if n > 0 && str_eq_contents(path[n - 1].as_str()) {
            let ghost before = path@;
            path.pop();
            proof {
                assert(path@ =~= before.drop_last());
            }
            (path, false)
        } else {
            (path, false)
        }
    }
}

/// Whether a path component is the bundle's inner directory name.
fn str_eq_contents(s: &str) -> (r: bool)
    ensures
        r == (s@ == "Contents"@),
{
    proof {
        reveal_strlit("Contents");
    }
    let ls = s.unicode_len();
    if ls != 8 {
        return false;
    }
    let ok = s.get_char(0) == 'C' && s.get_char(1) == 'o' && s.get_char(2) == 'n' && s.get_char(3)
        == 't' && s.get_char(4) == 'e' && s.get_char(5) == 'n' && s.get_char(6) == 't'
        && s.get_char(7) == 's';
    if ok {
        proof {
            assert(s@ =~= "Contents"@);
        }
        true
    } else {
        false
    }
}

} // verus!
