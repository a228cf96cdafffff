//! The resource drift capability: a uniform contract over the two managed
//! resource kinds (sysctl, file) for asking "has this drifted from desired
//! state?" and for applying the desired state. The local system appears as
//! an explicit value, so detection is read-only and application is exactly
//! the written change; the surrounding process mirrors these values onto
//! the machine.

use vstd::prelude::*;
use crate::errors::{Error, ErrorKind, error_kind};
use crate::strutil::str_eq;

verus! {

/// One observed kernel setting of the local system.
pub struct SysctlEntry {
    pub name: String,
    pub value: String,
}

/// The mathematical shape of a [`SysctlEntry`].
pub struct SysctlEntryView {
    pub name: Seq<char>,
    pub value: Seq<char>,
}

impl View for SysctlEntry {
    type V = SysctlEntryView;

    open spec fn view(&self) -> SysctlEntryView {
        SysctlEntryView { name: self.name@, value: self.value@ }
    }
}

/// One observed file of the local system.
pub struct FileEntry {
    pub path: String,
    pub content: String,
    pub mode: u32,
}

/// The mathematical shape of a [`FileEntry`].
pub struct FileEntryView {
    pub path: Seq<char>,
    pub content: Seq<char>,
    pub mode: u32,
}

impl View for FileEntry {
    type V = FileEntryView;

    open spec fn view(&self) -> FileEntryView {
        FileEntryView { path: self.path@, content: self.content@, mode: self.mode }
    }
}

/// The observable local state of one machine: the kernel settings that can
/// be read, and the files that exist.
pub struct SystemState {
    pub sysctls: Vec<SysctlEntry>,
    pub files: Vec<FileEntry>,
}

/// The mathematical shape of a [`SystemState`].
pub struct SystemStateView {
    pub sysctls: Seq<SysctlEntryView>,
    pub files: Seq<FileEntryView>,
}

impl View for SystemState {
    type V = SystemStateView;

    open spec fn view(&self) -> SystemStateView {
        SystemStateView {
            sysctls: self.sysctls@.map_values(|e: SysctlEntry| e@),
            files: self.files@.map_values(|e: FileEntry| e@),
        }
    }
}

/// The position of the first kernel setting with the given name, searching
/// from `i`.
pub open spec fn sysctl_index_from(s: Seq<SysctlEntryView>, name: Seq<char>, i: int) -> Option<int>
    decreases s.len() - i,
{
    if i < 0 || i >= s.len() {
        None
    } else if s[i].name == name {
        Some(i)
    } else {
        sysctl_index_from(s, name, i + 1)
    }
}

/// The position of the first kernel setting with the given name.
pub open spec fn sysctl_index(s: Seq<SysctlEntryView>, name: Seq<char>) -> Option<int> {
    sysctl_index_from(s, name, 0)
}

/// The position of the first file with the given path, searching from `i`.
pub open spec fn file_index_from(s: Seq<FileEntryView>, path: Seq<char>, i: int) -> Option<int>
    decreases s.len() - i,
{
    if i < 0 || i >= s.len() {
        None
    } else if s[i].path == path {
        Some(i)
    } else {
        file_index_from(s, path, i + 1)
    }
}

/// The position of the first file with the given path.
pub open spec fn file_index(s: Seq<FileEntryView>, path: Seq<char>) -> Option<int> {
    file_index_from(s, path, 0)
}

impl SystemStateView {
    /// The value the named kernel setting currently holds, if it can be
    /// observed at all.
    pub open spec fn sysctl_value(self, name: Seq<char>) -> Option<Seq<char>> {
        match sysctl_index(self.sysctls, name) {
            Some(i) => Some(self.sysctls[i].value),
            None => None,
        }
    }

    /// The content and mode of the file at the given path, if it exists.
    pub open spec fn file_state(self, path: Seq<char>) -> Option<(Seq<char>, u32)> {
        match file_index(self.files, path) {
            Some(i) => Some((self.files[i].content, self.files[i].mode)),
            None => None,
        }
    }
}

/// Updating one kernel setting never moves the position any name is found
/// at, because positions depend on the names alone.
pub proof fn lemma_sysctl_index_update(s: Seq<SysctlEntryView>, i: int, e: SysctlEntryView, from: int, name: Seq<char>)
    requires
        0 <= i < s.len(),
        s[i].name == e.name,
    ensures
        sysctl_index_from(s.update(i, e), name, from) == sysctl_index_from(s, name, from),
    decreases s.len() - from,
{
    if from < 0 || from >= s.len() {
    } else {
        assert(s.update(i, e)[from].name == s[from].name);
        lemma_sysctl_index_update(s, i, e, from + 1, name);
    }
}

/// Appending one kernel setting leaves every found position alone, and a
/// name found nowhere is found at the end exactly when the new entry
/// carries it.
pub proof fn lemma_sysctl_index_push(s: Seq<SysctlEntryView>, e: SysctlEntryView, from: int, name: Seq<char>)
    requires
        0 <= from <= s.len(),
    ensures
        sysctl_index_from(s.push(e), name, from) == match sysctl_index_from(s, name, from) {
            Some(j) => Some(j),
            None => if e.name == name { Some(s.len() as int) } else { None::<int> },
        },
    decreases s.len() - from,
{
    if from == s.len() {
        assert(sysctl_index_from(s, name, from) is None);
        if e.name == name {
            assert(s.push(e)[from].name == name);
        } else {
            assert(sysctl_index_from(s.push(e), name, from + 1) is None);
        }
    } else {
        assert(s.push(e)[from].name == s[from].name);
        lemma_sysctl_index_push(s, e, from + 1, name);
    }
}

/// A found position lies in range and carries the name searched for.
pub proof fn lemma_sysctl_index_found(s: Seq<SysctlEntryView>, name: Seq<char>, from: int)
    requires
        sysctl_index_from(s, name, from) is Some,
    ensures
        from <= sysctl_index_from(s, name, from)->Some_0 < s.len(),
        s[sysctl_index_from(s, name, from)->Some_0].name == name,
    decreases s.len() - from,
{
    if !(from < 0 || from >= s.len()) && s[from].name != name {
        lemma_sysctl_index_found(s, name, from + 1);
    }
}

/// A found position lies in range and carries the path searched for.
pub proof fn lemma_file_index_found(s: Seq<FileEntryView>, path: Seq<char>, from: int)
    requires
        file_index_from(s, path, from) is Some,
    ensures
        from <= file_index_from(s, path, from)->Some_0 < s.len(),
        s[file_index_from(s, path, from)->Some_0].path == path,
    decreases s.len() - from,
{
    if !(from < 0 || from >= s.len()) && s[from].path != path {
        lemma_file_index_found(s, path, from + 1);
    }
}

/// Updating one file never moves the position any path is found at.
pub proof fn lemma_file_index_update(s: Seq<FileEntryView>, i: int, e: FileEntryView, from: int, path: Seq<char>)
    requires
        0 <= i < s.len(),
        s[i].path == e.path,
    ensures
        file_index_from(s.update(i, e), path, from) == file_index_from(s, path, from),
    decreases s.len() - from,
{
    if from < 0 || from >= s.len() {
    } else {
        assert(s.update(i, e)[from].path == s[from].path);
        lemma_file_index_update(s, i, e, from + 1, path);
    }
}

/// Appending one file leaves every found position alone, and a path found
/// nowhere is found at the end exactly when the new entry carries it.
pub proof fn lemma_file_index_push(s: Seq<FileEntryView>, e: FileEntryView, from: int, path: Seq<char>)
    requires
        0 <= from <= s.len(),
    ensures
        file_index_from(s.push(e), path, from) == match file_index_from(s, path, from) {
            Some(j) => Some(j),
            None => if e.path == path { Some(s.len() as int) } else { None::<int> },
        },
    decreases s.len() - from,
{
    if from == s.len() {
        assert(file_index_from(s, path, from) is None);
        if e.path == path {
            assert(s.push(e)[from].path == path);
        } else {
            assert(file_index_from(s.push(e), path, from + 1) is None);
        }
    } else {
        assert(s.push(e)[from].path == s[from].path);
        lemma_file_index_push(s, e, from + 1, path);
    }
}

impl SystemState {
    /// The value the named kernel setting currently holds.
    pub fn observe_sysctl(&self, name: &str) -> (r: Option<String>)
        ensures
            crate::meta::opt_view(r) == self@.sysctl_value(name@),
    {
        let n = self.sysctls.len();
        let mut i: usize = 0;
        while i < n
            invariant
                i <= n,
                n == self.sysctls@.len(),
                sysctl_index(self@.sysctls, name@) == sysctl_index_from(self@.sysctls, name@, i as int),
            decreases n - i,
        {
            if str_eq(self.sysctls[i].name.as_str(), name) {
                assert(self@.sysctls[i as int].name == name@);
                return Some(self.sysctls[i].value.clone());
            }
            assert(self@.sysctls[i as int].name != name@);
            i = i + 1;
        }
        None
    }

    /// The content and mode of the file at the given path, if it exists.
    pub fn observe_file(&self, path: &str) -> (r: Option<(String, u32)>)
        ensures
            match r {
                Some(p) => self@.file_state(path@) == Some((p.0@, p.1)),
                None => self@.file_state(path@) is None,
            },
    {
        let n = self.files.len();
        let mut i: usize = 0;
        while i < n
            invariant
                i <= n,
                n == self.files@.len(),
                file_index(self@.files, path@) == file_index_from(self@.files, path@, i as int),
            decreases n - i,
        {
            if str_eq(self.files[i].path.as_str(), path) {
                assert(self@.files[i as int].path == path@);
                return Some((self.files[i].content.clone(), self.files[i].mode));
            }
            assert(self@.files[i as int].path != path@);
            i = i + 1;
        }
        None
    }
}

/// One drift-checkable resource handle: the desired state of one kernel
/// setting or one managed file.
pub enum Resource {
    Sysctl { name: String, value: String },
    File { destination: String, content: String, mode: u32 },
}

/// The mathematical shape of a [`Resource`].
pub enum ResourceView {
    Sysctl { name: Seq<char>, value: Seq<char> },
    File { destination: Seq<char>, content: Seq<char>, mode: u32 },
}

impl View for Resource {
    type V = ResourceView;

    open spec fn view(&self) -> ResourceView {
        match self {
            Resource::Sysctl { name, value } => ResourceView::Sysctl { name: name@, value: value@ },
            Resource::File { destination, content, mode } => ResourceView::File {
                destination: destination@,
                content: content@,
                mode: *mode,
            },
        }
    }
}

/// Whether a resource has drifted on the given system: `Some(b)` when the
/// current state can be observed (a missing file counts as drifted, not as
/// unobservable), `None` when it cannot (an unreadable kernel setting).
pub open spec fn drift_check(r: ResourceView, sys: SystemStateView) -> Option<bool> {
    match r {
        ResourceView::Sysctl { name, value } => match sys.sysctl_value(name) {
            Some(cur) => Some(cur != value),
            None => None,
        },
        ResourceView::File { destination, content, mode } => match sys.file_state(destination) {
            Some(cur) => Some(cur.0 != content || cur.1 != mode),
            None => Some(true),
        },
    }
}

/// The system a resource application produces, as a value: the one slot is
/// rewritten in place or appended, and everything else stays.
pub open spec fn spec_apply(r: ResourceView, sys: SystemStateView) -> SystemStateView {
    match r {
        ResourceView::Sysctl { name, value } => {
            let e = SysctlEntryView { name: name, value: value };
            match sysctl_index(sys.sysctls, name) {
                Some(i) => SystemStateView { sysctls: sys.sysctls.update(i, e), files: sys.files },
                None => SystemStateView { sysctls: sys.sysctls.push(e), files: sys.files },
            }
        },
        ResourceView::File { destination, content, mode } => {
            let e = FileEntryView { path: destination, content: content, mode: mode };
            match file_index(sys.files, destination) {
                Some(i) => SystemStateView { sysctls: sys.sysctls, files: sys.files.update(i, e) },
                None => SystemStateView { sysctls: sys.sysctls, files: sys.files.push(e) },
            }
        },
    }
}

/// Whether applying this resource can change the named kernel setting.
pub open spec fn touches_sysctl(r: ResourceView, name: Seq<char>) -> bool {
    match r {
        ResourceView::Sysctl { name: n, .. } => n == name,
        ResourceView::File { .. } => false,
    }
}

/// Whether applying this resource can change the file at the given path.
pub open spec fn touches_file(r: ResourceView, path: Seq<char>) -> bool {
    match r {
        ResourceView::File { destination, .. } => destination == path,
        ResourceView::Sysctl { .. } => false,
    }
}

/// The value-level application satisfies the application contract: the one
/// slot holds the desired state afterwards and nothing else moves.
pub proof fn lemma_spec_apply(r: ResourceView, sys: SystemStateView)
    ensures
        applied(r, sys, spec_apply(r, sys)),
{
    match r {
        ResourceView::Sysctl { name, value } => {
            let e = SysctlEntryView { name: name, value: value };
            let s0 = sys.sysctls;
            match sysctl_index(s0, name) {
                Some(i) => {
                    lemma_sysctl_index_found(s0, name, 0);
                    let s1 = s0.update(i, e);
                    assert forall|n: Seq<char>| #[trigger] sysctl_index(s1, n) == sysctl_index(s0, n) by {
                        lemma_sysctl_index_update(s0, i, e, 0, n);
                    }
                    assert forall|n: Seq<char>| n != name implies #[trigger] spec_apply(r, sys).sysctl_value(n)
                        == sys.sysctl_value(n) by {
                        if sysctl_index(s0, n) is Some {
                            lemma_sysctl_index_found(s0, n, 0);
                        }
                    }
                },
                None => {
                    let s1 = s0.push(e);
                    assert forall|n: Seq<char>| true implies #[trigger] sysctl_index(s1, n)
                        == (match sysctl_index(s0, n) {
                            Some(j) => Some(j),
                            None => if n == name { Some(s0.len() as int) } else { None::<int> },
                        }) by {
                        lemma_sysctl_index_push(s0, e, 0, n);
                    }
                    assert forall|n: Seq<char>| n != name implies #[trigger] spec_apply(r, sys).sysctl_value(n)
                        == sys.sysctl_value(n) by {
                        if sysctl_index(s0, n) is Some {
                            lemma_sysctl_index_found(s0, n, 0);
                        }
                    }
                },
            }
        },
        ResourceView::File { destination, content, mode } => {
            let e = FileEntryView { path: destination, content: content, mode: mode };
            let s0 = sys.files;
            match file_index(s0, destination) {
                Some(i) => {
                    lemma_file_index_found(s0, destination, 0);
                    let s1 = s0.update(i, e);
                    assert forall|p: Seq<char>| #[trigger] file_index(s1, p) == file_index(s0, p) by {
                        lemma_file_index_update(s0, i, e, 0, p);
                    }
                    assert forall|p: Seq<char>| p != destination implies #[trigger] spec_apply(r, sys).file_state(p)
                        == sys.file_state(p) by {
                        if file_index(s0, p) is Some {
                            lemma_file_index_found(s0, p, 0);
                        }
                    }
                },
                None => {
                    let s1 = s0.push(e);
                    assert forall|p: Seq<char>| true implies #[trigger] file_index(s1, p)
                        == (match file_index(s0, p) {
                            Some(j) => Some(j),
                            None => if p == destination { Some(s0.len() as int) } else { None::<int> },
                        }) by {
                        lemma_file_index_push(s0, e, 0, p);
                    }
                    assert forall|p: Seq<char>| p != destination implies #[trigger] spec_apply(r, sys).file_state(p)
                        == sys.file_state(p) by {
                        if file_index(s0, p) is Some {
                            lemma_file_index_found(s0, p, 0);
                        }
                    }
                },
            }
        },
    }
}

/// Applying a concatenation is applying the two halves in order.
pub proof fn lemma_spec_apply_all_concat(a: Seq<ResourceView>, b: Seq<ResourceView>, sys: SystemStateView)
    ensures
        spec_apply_all(a + b, sys) == spec_apply_all(b, spec_apply_all(a, sys)),
    decreases b.len(),
{
    if b.len() == 0 {
        assert(a + b =~= a);
    } else {
        assert((a + b).drop_last() =~= a + b.drop_last());
        assert((a + b).last() == b.last());
        lemma_spec_apply_all_concat(a, b.drop_last(), sys);
    }
}

/// A sequence of applications that never touches the named kernel setting
/// leaves it as it was.
pub proof fn lemma_spec_apply_all_frame_sysctl(rs: Seq<ResourceView>, sys: SystemStateView, name: Seq<char>)
    requires
        forall|k: int| 0 <= k < rs.len() ==> !touches_sysctl(#[trigger] rs[k], name),
    ensures
        spec_apply_all(rs, sys).sysctl_value(name) == sys.sysctl_value(name),
    decreases rs.len(),
{
    if rs.len() > 0 {
        lemma_spec_apply_all_frame_sysctl(rs.drop_last(), sys, name);
        lemma_spec_apply(rs.last(), spec_apply_all(rs.drop_last(), sys));
    }
}

/// A sequence of applications that never touches the file at the given
/// path leaves it as it was.
pub proof fn lemma_spec_apply_all_frame_file(rs: Seq<ResourceView>, sys: SystemStateView, path: Seq<char>)
    requires
        forall|k: int| 0 <= k < rs.len() ==> !touches_file(#[trigger] rs[k], path),
    ensures
        spec_apply_all(rs, sys).file_state(path) == sys.file_state(path),
    decreases rs.len(),
{
    if rs.len() > 0 {
        lemma_spec_apply_all_frame_file(rs.drop_last(), sys, path);
        lemma_spec_apply(rs.last(), spec_apply_all(rs.drop_last(), sys));
    }
}

/// The system after a whole sequence of resource applications, in order.
pub open spec fn spec_apply_all(rs: Seq<ResourceView>, sys: SystemStateView) -> SystemStateView
    decreases rs.len(),
{
    if rs.len() == 0 {
        sys
    } else {
        spec_apply(rs.last(), spec_apply_all(rs.drop_last(), sys))
    }
}

/// The system after a resource's desired state has been applied: the one
/// setting or file holds the desired state, and nothing else moves.
pub open spec fn applied(r: ResourceView, sys: SystemStateView, post: SystemStateView) -> bool {
    match r {
        ResourceView::Sysctl { name, value } => {
            &&& post.sysctl_value(name) == Some(value)
            &&& forall|n: Seq<char>| n != name ==> #[trigger] post.sysctl_value(n) == sys.sysctl_value(n)
            &&& forall|p: Seq<char>| #[trigger] post.file_state(p) == sys.file_state(p)
        },
        ResourceView::File { destination, content, mode } => {
            &&& post.file_state(destination) == Some((content, mode))
            &&& forall|p: Seq<char>| p != destination ==> #[trigger] post.file_state(p) == sys.file_state(p)
            &&& forall|n: Seq<char>| #[trigger] post.sysctl_value(n) == sys.sysctl_value(n)
        },
    }
}

impl Resource {
    /// The desired state of one kernel setting.
    pub fn new_sysctl(name: &str, value: &str) -> (r: Resource)
        ensures
            r@ == (ResourceView::Sysctl { name: name@, value: value@ }),
    {
        Resource::Sysctl { name: name.to_owned(), value: value.to_owned() }
    }

    /// The desired state of one managed file.
    pub fn new_file(destination: &str, content: &str, mode: u32) -> (r: Resource)
        ensures
            r@ == (ResourceView::File { destination: destination@, content: content@, mode: mode }),
    {
        Resource::File { destination: destination.to_owned(), content: content.to_owned(), mode }
    }

    /// Compare the current observed state against the desired state without
    /// touching the system. Fails only when the current state cannot be
    /// observed, never because the value differs.
    pub fn has_drifted(&self, system: &SystemState) -> (r: Result<bool, Error>)
        ensures
            match drift_check(self@, system@) {
                Some(b) => r == Ok::<bool, Error>(b),
                None => r is Err && error_kind(r->Err_0) == ErrorKind::Other,
            },
    {
        match self {
            Resource::Sysctl { name, value } => {
                match system.observe_sysctl(name.as_str()) {
                    Some(cur) => Ok(!str_eq(cur.as_str(), value.as_str())),
                    None => Err(Error::Other("unable to read the current sysctl value".to_owned())),
                }
            },
            Resource::File { destination, content, mode } => {
                match system.observe_file(destination.as_str()) {
                    Some(cur) => Ok(
                        !str_eq(cur.0.as_str(), content.as_str()) || cur.1 != *mode,
                    ),
                    None => Ok(true),
                }
            },
        }
    }

    /// Make the current state equal the desired state. Applying twice with
    /// no intervening change yields no further effect and no error.
    pub fn apply(&self, system: &mut SystemState) -> (r: Result<(), Error>)
        ensures
            r is Ok,
            applied(self@, old(system)@, final(system)@),
            final(system)@ == spec_apply(self@, old(system)@),
    {
        match self {
            Resource::Sysctl { name, value } => {
                let found = find_sysctl_slot(system, name.as_str());
                match found {
                    Some(i) => {
                        let e = SysctlEntry { name: name.clone(), value: value.clone() };
                        system.sysctls[i] = e;
                        proof {
                            let s0 = old(system)@.sysctls;
                            let s1 = system@.sysctls;
                            let ev = SysctlEntryView { name: name@, value: value@ };
                            assert(s1 =~= s0.update(i as int, ev));
                            assert forall|n: Seq<char>|
                                #[trigger] sysctl_index(s1, n) == sysctl_index(s0, n) by {
                                lemma_sysctl_index_update(s0, i as int, ev, 0, n);
                            }
                            assert forall|n: Seq<char>| n != name@
                                implies #[trigger] system@.sysctl_value(n) == old(system)@.sysctl_value(n) by {
                                if sysctl_index(s0, n) is Some {
                                    lemma_sysctl_index_found(s0, n, 0);
                                }
                            }
                            assert(system@.files =~= old(system)@.files);
                        }
                    },
                    None => {
                        let e = SysctlEntry { name: name.clone(), value: value.clone() };
                        system.sysctls.push(e);
                        proof {
                            let s0 = old(system)@.sysctls;
                            let s1 = system@.sysctls;
                            assert(s1 =~= s0.push(SysctlEntryView { name: name@, value: value@ }));
                            assert forall|n: Seq<char>| true implies #[trigger] sysctl_index(s1, n)
                                == (match sysctl_index(s0, n) {
                                    Some(j) => Some(j),
                                    None => if n == name@ { Some(s0.len() as int) } else { None::<int> },
                                }) by {
                                lemma_sysctl_index_push(
                                    s0, SysctlEntryView { name: name@, value: value@ }, 0, n,
                                );
                            }
                            assert forall|n: Seq<char>| n != name@
                                implies #[trigger] system@.sysctl_value(n) == old(system)@.sysctl_value(n) by {
                                if sysctl_index(s0, n) is Some {
                                    lemma_sysctl_index_found(s0, n, 0);
                                }
                            }
                            assert(system@.files =~= old(system)@.files);
                        }
                    },
                }
                Ok(())
            },
            Resource::File { destination, content, mode } => {
                let found = find_file_slot(system, destination.as_str());
                match found {
                    Some(i) => {
                        let e = FileEntry { path: destination.clone(), content: content.clone(), mode: *mode };
                        system.files[i] = e;
                        proof {
                            let s0 = old(system)@.files;
                            let s1 = system@.files;
                            let ev = FileEntryView { path: destination@, content: content@, mode: *mode };
                            assert(s1 =~= s0.update(i as int, ev));
                            assert forall|p: Seq<char>|
                                #[trigger] file_index(s1, p) == file_index(s0, p) by {
                                lemma_file_index_update(s0, i as int, ev, 0, p);
                            }
                            assert forall|p: Seq<char>| p != destination@
                                implies #[trigger] system@.file_state(p) == old(system)@.file_state(p) by {
                                if file_index(s0, p) is Some {
                                    lemma_file_index_found(s0, p, 0);
                                }
                            }
                            assert(system@.sysctls =~= old(system)@.sysctls);
                        }
                    },
                    None => {
                        let e = FileEntry { path: destination.clone(), content: content.clone(), mode: *mode };
                        system.files.push(e);
                        proof {
                            let s0 = old(system)@.files;
                            let s1 = system@.files;
                            let ev = FileEntryView { path: destination@, content: content@, mode: *mode };
                            assert(s1 =~= s0.push(ev));
                            assert forall|p: Seq<char>| true implies #[trigger] file_index(s1, p)
                                == (match file_index(s0, p) {
                                    Some(j) => Some(j),
                                    None => if p == destination@ { Some(s0.len() as int) } else { None::<int> },
                                }) by {
                                lemma_file_index_push(s0, ev, 0, p);
                            }
                            assert forall|p: Seq<char>| p != destination@
                                implies #[trigger] system@.file_state(p) == old(system)@.file_state(p) by {
                                if file_index(s0, p) is Some {
                                    lemma_file_index_found(s0, p, 0);
                                }
                            }
                            assert(system@.sysctls =~= old(system)@.sysctls);
                        }
                    },
                }
                Ok(())
            },
        }
    }
}

/// The position the named kernel setting is stored at, if any.
fn find_sysctl_slot(system: &SystemState, name: &str) -> (r: Option<usize>)
    ensures
        match r {
            Some(i) => i < system.sysctls@.len() && sysctl_index(system@.sysctls, name@) == Some(i as int)
                && system@.sysctls[i as int].name == name@,
            None => sysctl_index(system@.sysctls, name@) is None,
        },
{
    let n = system.sysctls.len();
    let mut i: usize = 0;
    while i < n
        invariant
            i <= n,
            n == system.sysctls@.len(),
            sysctl_index(system@.sysctls, name@) == sysctl_index_from(system@.sysctls, name@, i as int),
        decreases n - i,
    {
        if str_eq(system.sysctls[i].name.as_str(), name) {
            assert(system@.sysctls[i as int].name == name@);
            return Some(i);
        }
        assert(system@.sysctls[i as int].name != name@);
        i = i + 1;
    }
    None
}

/// The position the file at the given path is stored at, if any.
fn find_file_slot(system: &SystemState, path: &str) -> (r: Option<usize>)
    ensures
        match r {
            Some(i) => i < system.files@.len() && file_index(system@.files, path@) == Some(i as int)
                && system@.files[i as int].path == path@,
            None => file_index(system@.files, path@) is None,
        },
{
    let n = system.files.len();
    let mut i: usize = 0;
    while i < n
        invariant
            i <= n,
            n == system.files@.len(),
            file_index(system@.files, path@) == file_index_from(system@.files, path@, i as int),
        decreases n - i,
    {
        if str_eq(system.files[i].path.as_str(), path) {
            assert(system@.files[i as int].path == path@);
            return Some(i);
        }
        assert(system@.files[i as int].path != path@);
        i = i + 1;
    }
    None
}

} // verus!
