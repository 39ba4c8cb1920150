use vstd::prelude::*;

verus! {

/// What the application knows of one download; every field is optional, as in the
/// status objects that the UI polls.
pub struct DownloadEntry {
    pub status: Option<String>,
    pub dest: Option<String>,
    pub progress: Option<u64>,
    pub pid: Option<u32>,
    pub last_stdout: Option<String>,
    pub last_stderr: Option<String>,
    pub error: Option<String>,
    pub downloaded: Option<u64>,
    pub title: Option<String>,
    pub cover_path: Option<String>,
}

/// The value of a download entry, with strings as character sequences.
pub struct EntryView {
    pub status: Option<Seq<char>>,
    pub dest: Option<Seq<char>>,
    pub progress: Option<u64>,
    pub pid: Option<u32>,
    pub last_stdout: Option<Seq<char>>,
    pub last_stderr: Option<Seq<char>>,
    pub error: Option<Seq<char>>,
    pub downloaded: Option<u64>,
    pub title: Option<Seq<char>>,
    pub cover_path: Option<Seq<char>>,
}

/// The character sequence of an optional string.
pub open spec fn opt_view(s: Option<String>) -> Option<Seq<char>> {
    match s {
        Some(x) => Some(x@),
        None => None,
    }
}

impl View for DownloadEntry {
    type V = EntryView;

    open spec fn view(&self) -> EntryView {
        EntryView {
            status: opt_view(self.status),
            dest: opt_view(self.dest),
            progress: self.progress,
            pid: self.pid,
            last_stdout: opt_view(self.last_stdout),
            last_stderr: opt_view(self.last_stderr),
            error: opt_view(self.error),
            downloaded: self.downloaded,
            title: opt_view(self.title),
            cover_path: opt_view(self.cover_path),
        }
    }
}

/// `b` where it is set, else `a`.
pub open spec fn prefer<T>(a: Option<T>, b: Option<T>) -> Option<T> {
    match b {
        Some(x) => Some(x),
        None => a,
    }
}

/// An entry with every field that `patch` sets overwritten.
pub open spec fn merged(e: EntryView, patch: EntryView) -> EntryView {
    EntryView {
        status: prefer(e.status, patch.status),
        dest: prefer(e.dest, patch.dest),
        progress: prefer(e.progress, patch.progress),
        pid: prefer(e.pid, patch.pid),
        last_stdout: prefer(e.last_stdout, patch.last_stdout),
        last_stderr: prefer(e.last_stderr, patch.last_stderr),
        error: prefer(e.error, patch.error),
        downloaded: prefer(e.downloaded, patch.downloaded),
        title: prefer(e.title, patch.title),
        cover_path: prefer(e.cover_path, patch.cover_path),
    }
}

/// An entry that the downloads listing completes from its folder: it has a folder and lacks
/// a title or a cover.
pub open spec fn needs_enrichment(e: EntryView) -> bool {
    (e.title is None || e.cover_path is None) && e.dest is Some
}

/// An entry completed with a folder name and a cover, each when given.
pub open spec fn enriched(e: EntryView, folder_name: Option<Seq<char>>, cover: Option<Seq<char>>) -> EntryView {
    EntryView { title: prefer(e.title, folder_name), cover_path: prefer(e.cover_path, cover), ..e }
}

/// An entry with no field set.
pub open spec fn empty_view() -> EntryView {
    EntryView {
        status: None,
        dest: None,
        progress: None,
        pid: None,
        last_stdout: None,
        last_stderr: None,
        error: None,
        downloaded: None,
        title: None,
        cover_path: None,
    }
}

/// A copy of an optional string.
fn clone_opt(s: &Option<String>) -> (r: Option<String>)
    ensures
        opt_view(r) == opt_view(*s),
{
    match s {
        Some(x) => Some(x.clone()),
        None => None,
    }
}

impl DownloadEntry {
    /// An entry with no field set.
    pub fn empty() -> (r: DownloadEntry)
        ensures
            r@ == empty_view(),
    {
        DownloadEntry {
            status: None,
            dest: None,
            progress: None,
            pid: None,
            last_stdout: None,
            last_stderr: None,
            error: None,
            downloaded: None,
            title: None,
            cover_path: None,
        }
    }

    /// A copy of this entry.
    pub fn duplicate(&self) -> (r: DownloadEntry)
        ensures
            r@ == self@,
    {
        DownloadEntry {
            status: clone_opt(&self.status),
            dest: clone_opt(&self.dest),
            progress: self.progress,
            pid: self.pid,
            last_stdout: clone_opt(&self.last_stdout),
            last_stderr: clone_opt(&self.last_stderr),
            error: clone_opt(&self.error),
            downloaded: self.downloaded,
            title: clone_opt(&self.title),
            cover_path: clone_opt(&self.cover_path),
        }
    }

    /// Overwrites every field that `patch` sets.
    pub fn merge(&mut self, patch: DownloadEntry)
        ensures
            final(self)@ == merged(old(self)@, patch@),
    {
        if patch.status.is_some() {
            self.status = patch.status;
        }
        if patch.dest.is_some() {
            self.dest = patch.dest;
        }
        if patch.progress.is_some() {
            self.progress = patch.progress;
        }
        if patch.pid.is_some() {
            self.pid = patch.pid;
        }
        if patch.last_stdout.is_some() {
            self.last_stdout = patch.last_stdout;
        }
        if patch.last_stderr.is_some() {
            self.last_stderr = patch.last_stderr;
        }
        if patch.error.is_some() {
            self.error = patch.error;
        }
        if patch.downloaded.is_some() {
            self.downloaded = patch.downloaded;
        }
        if patch.title.is_some() {
            self.title = patch.title;
        }
        if patch.cover_path.is_some() {
            self.cover_path = patch.cover_path;
        }
    }
}

/// Download entries by id, in the order in which their ids were first recorded.
struct EntryList {
    entries: Vec<(String, DownloadEntry)>,
}

impl View for EntryList {
    type V = Map<Seq<char>, EntryView>;

    closed spec fn view(&self) -> Map<Seq<char>, EntryView> {
        Map::new(
            |id: Seq<char>| exists|i: int| 0 <= i < self.entries@.len() && self.entries@[i].0@ == id,
            |id: Seq<char>| {
                let i = choose|i: int| 0 <= i < self.entries@.len() && self.entries@[i].0@ == id;
                self.entries@[i].1@
            },
        )
    }
}

impl EntryList {
    /// No id appears twice.
    closed spec fn wf(&self) -> bool {
        forall|i: int, j: int|
            0 <= i < j < self.entries@.len() ==> (#[trigger] self.entries@[i]).0@ != (#[trigger] self.entries@[j]).0@
    }

    /// The ids, in the order in which they were first recorded.
    closed spec fn ids(&self) -> Seq<Seq<char>> {
        self.entries@.map_values(|e: (String, DownloadEntry)| e.0@)
    }

    proof fn lemma_view_at(&self, i: int)
        requires
            self.wf(),
            0 <= i < self.entries@.len(),
        ensures
            self@.contains_key(self.entries@[i].0@),
            self@[self.entries@[i].0@] == self.entries@[i].1@,
    {
        let id = self.entries@[i].0@;
        let j = choose|j: int| 0 <= j < self.entries@.len() && self.entries@[j].0@ == id;
        assert(i == j);
    }

    /// An empty registry.
    fn new() -> (r: EntryList)
        ensures
            r.wf(),
            r@ == Map::<Seq<char>, EntryView>::empty(),
    {
        let r = EntryList { entries: Vec::new() };
        proof {
            assert(r@ =~= Map::<Seq<char>, EntryView>::empty());
        }
        r
    }

    /// Where `id` is recorded, if it is.
    fn position(&self, id: &String) -> (r: Option<usize>)
        requires
            self.wf(),
        ensures
            match r {
                Some(i) => i < self.entries@.len() && self.entries@[i as int].0@ == id@,
                None => !self@.contains_key(id@),
            },
    {
        let mut i: usize = 0;
        while i < self.entries.len()
            invariant
                i <= self.entries@.len(),
                forall|j: int| 0 <= j < i ==> self.entries@[j].0@ != id@,
            decreases self.entries@.len() - i,
        {
            if self.entries[i].0 == *id {
                return Some(i);
            }
            i = i + 1;
        }
        None
    }

    /// The entry recorded for `id`, if any.
    fn get(&self, id: &String) -> (r: Option<DownloadEntry>)
        requires
            self.wf(),
        ensures
            match r {
                Some(e) => self@.contains_key(id@) && self@[id@] == e@,
                None => !self@.contains_key(id@),
            },
    {
        match self.position(id) {
            Some(i) => {
                proof {
                    self.lemma_view_at(i as int);
                }
                Some(self.entries[i].1.duplicate())
            },
            None => None,
        }
    }

    /// Records `entry` for `id`, replacing whatever was recorded for it.
    fn insert(&mut self, id: String, entry: DownloadEntry)
        requires
            old(self).wf(),
        ensures
            final(self).wf(),
            final(self)@ == old(self)@.insert(id@, entry@),
    {
        let ghost old_map = self@;
        let ghost idv = id@;
        let ghost ev = entry@;
        match self.position(&id) {
            Some(i) => {
                let ghost old_entries = self.entries@;
                self.entries.set(i, (id, entry));
                proof {
                    assert forall|a: int, b: int| 0 <= a < b < self.entries@.len() implies (#[trigger] self.entries@[a]).0@
                        != (#[trigger] self.entries@[b]).0@ by {
                        assert(old_entries[a].0@ != old_entries[b].0@);
                    }
                    assert forall|k: Seq<char>| #[trigger] self@.contains_key(k) == old_map.insert(idv, ev).contains_key(k) by {
                        if old_map.contains_key(k) {
                            let j = choose|j: int| 0 <= j < old_entries.len() && old_entries[j].0@ == k;
                            assert(self.entries@[j].0@ == k);
                        }
                        if self@.contains_key(k) {
                            let j = choose|j: int| 0 <= j < self.entries@.len() && self.entries@[j].0@ == k;
                            if j != i {
                                assert(old_entries[j].0@ == k);
                            }
                        }
                    }
                    assert forall|k: Seq<char>| #[trigger] self@.contains_key(k) implies self@[k] == old_map.insert(idv, ev)[k] by {
                        let j = choose|j: int| 0 <= j < self.entries@.len() && self.entries@[j].0@ == k;
                        self.lemma_view_at(j);
                        if j != i {
                            assert(old_entries[j] == self.entries@[j]);
                            let j2 = choose|j2: int| 0 <= j2 < old_entries.len() && old_entries[j2].0@ == k;
                            assert(j2 == j);
                        }
                    }
                    assert(self@ =~= old_map.insert(idv, ev));
                }
            },
            None => {
                let ghost old_entries = self.entries@;
                self.entries.push((id, entry));
                proof {
                    let n = old_entries.len();
                    assert forall|a: int, b: int| 0 <= a < b < self.entries@.len() implies (#[trigger] self.entries@[a]).0@
                        != (#[trigger] self.entries@[b]).0@ by {
                        if b == n {
                            assert(old_entries[a] == self.entries@[a]);
                            if old_entries[a].0@ == idv {
                                assert(old_map.contains_key(idv));
                            }
                        } else {
                            assert(old_entries[a].0@ != old_entries[b].0@);
                        }
                    }
                    assert forall|k: Seq<char>| #[trigger] self@.contains_key(k) == old_map.insert(idv, ev).contains_key(k) by {
                        if old_map.contains_key(k) {
                            let j = choose|j: int| 0 <= j < old_entries.len() && old_entries[j].0@ == k;
                            assert(self.entries@[j].0@ == k);
                        }
                        if k == idv {
                            assert(self.entries@[n as int].0@ == k);
                        }
                        if self@.contains_key(k) {
                            let j = choose|j: int| 0 <= j < self.entries@.len() && self.entries@[j].0@ == k;
                            if j < n {
                                assert(old_entries[j].0@ == k);
                            }
                        }
                    }
                    assert forall|k: Seq<char>| #[trigger] self@.contains_key(k) implies self@[k] == old_map.insert(idv, ev)[k] by {
                        let j = choose|j: int| 0 <= j < self.entries@.len() && self.entries@[j].0@ == k;
                        self.lemma_view_at(j);
                        if j < n {
                            assert(old_entries[j] == self.entries@[j]);
                            let j2 = choose|j2: int| 0 <= j2 < old_entries.len() && old_entries[j2].0@ == k;
                            assert(j2 == j);
                        }
                    }
                    assert(self@ =~= old_map.insert(idv, ev));
                }
            },
        }
    }

    /// Overwrites, in the entry recorded for `id`, every field that `patch` sets; does
    /// nothing when `id` is not recorded.
    fn update(&mut self, id: &String, patch: DownloadEntry)
        requires
            old(self).wf(),
        ensures
            final(self).wf(),
            old(self)@.contains_key(id@) ==> final(self)@ == old(self)@.insert(id@, merged(old(self)@[id@], patch@)),
            !old(self)@.contains_key(id@) ==> final(self)@ == old(self)@,
    {
        match self.get(id) {
            Some(e) => {
                let mut e = e;
                e.merge(patch);
                self.insert(id.clone(), e);
            },
            None => {},
        }
    }

    /// Forgets `id`, returning what was recorded for it.
    fn remove(&mut self, id: &String) -> (r: Option<DownloadEntry>)
        requires
            old(self).wf(),
        ensures
            final(self).wf(),
            final(self)@ == old(self)@.remove(id@),
            match r {
                Some(e) => old(self)@.contains_key(id@) && old(self)@[id@] == e@,
                None => !old(self)@.contains_key(id@),
            },
    {
        let ghost old_map = self@;
        let ghost old_entries = self.entries@;
        match self.position(id) {
            Some(i) => {
                proof {
                    self.lemma_view_at(i as int);
                }
                let (_, e) = self.entries.remove(i);
                proof {
                    let n = old_entries.len();
                    assert(self.entries@ =~= old_entries.remove(i as int));
                    assert forall|a: int, b: int| 0 <= a < b < self.entries@.len() implies (#[trigger] self.entries@[a]).0@
                        != (#[trigger] self.entries@[b]).0@ by {
                        let a2 = if a < i { a } else { a + 1 };
                        let b2 = if b < i { b } else { b + 1 };
                        assert(self.entries@[a] == old_entries[a2]);
                        assert(self.entries@[b] == old_entries[b2]);
                        assert(old_entries[a2].0@ != old_entries[b2].0@);
                    }
                    assert forall|k: Seq<char>| #[trigger] self@.contains_key(k) == old_map.remove(id@).contains_key(k) by {
                        if self@.contains_key(k) {
                            let j = choose|j: int| 0 <= j < self.entries@.len() && self.entries@[j].0@ == k;
                            let j2 = if j < i { j } else { j + 1 };
                            assert(old_entries[j2].0@ == k);
                            assert(old_entries[i as int].0@ != k);
                        }
                        if old_map.remove(id@).contains_key(k) {
                            let j = choose|j: int| 0 <= j < old_entries.len() && old_entries[j].0@ == k;
                            assert(j != i);
                            let j2 = if j < i { j } else { j - 1 };
                            assert(self.entries@[j2].0@ == k);
                        }
                    }
                    assert forall|k: Seq<char>| #[trigger] self@.contains_key(k) implies self@[k] == old_map.remove(id@)[k] by {
                        let j = choose|j: int| 0 <= j < self.entries@.len() && self.entries@[j].0@ == k;
                        self.lemma_view_at(j);
                        let j2 = if j < i { j } else { j + 1 };
                        assert(old_entries[j2] == self.entries@[j]);
                        let j3 = choose|j3: int| 0 <= j3 < old_entries.len() && old_entries[j3].0@ == k;
                        assert(j3 == j2);
                    }
                    assert(self@ =~= old_map.remove(id@));
                }
                Some(e)
            },
            None => {
                proof {
                    assert(self@ =~= old_map.remove(id@));
                }
                None
            },
        }
    }

    /// The entry recorded for `id`, or the message given when there is none.
    fn progress_of(&self, id: &String) -> (r: Result<DownloadEntry, String>)
        requires
            self.wf(),
        ensures
            match r {
                Ok(e) => self@.contains_key(id@) && self@[id@] == e@,
                Err(m) => !self@.contains_key(id@) && m@ == "download_id not found"@,
            },
    {
        match self.get(id) {
            Some(e) => Ok(e),
            None => Err(crate::text::owned("download_id not found")),
        }
    }

    /// Completes the entry recorded for `id` from its folder when it lacks a title or a cover
    /// and has a folder: the folder's name becomes its title and the cover found there its
    /// cover (each only when given).
    fn enrich(&mut self, id: &String, folder_name: Option<String>, cover: Option<String>)
        requires
            old(self).wf(),
        ensures
            final(self).wf(),
            final(self)@ == (if old(self)@.contains_key(id@) && needs_enrichment(old(self)@[id@]) {
                old(self)@.insert(id@, enriched(old(self)@[id@], opt_view(folder_name), opt_view(cover)))
            } else {
                old(self)@
            }),
    {
        match self.get(id) {
            Some(e) => {
                if (e.title.is_none() || e.cover_path.is_none()) && e.dest.is_some() {
                    let mut e = e;
                    if folder_name.is_some() {
                        e.title = folder_name;
                    }
                    if cover.is_some() {
                        e.cover_path = cover;
                    }
                    self.insert(id.clone(), e);
                }
            },
            None => {},
        }
    }

    /// Every recorded download, as `(id, entry)` pairs, one per id.
    fn snapshot(&self) -> (r: Vec<(String, DownloadEntry)>)
        requires
            self.wf(),
        ensures
            r@.len() == self.ids().len(),
            forall|i: int| 0 <= i < r@.len() ==> {
                &&& (#[trigger] r@[i]).0@ == self.ids()[i]
                &&& self@.contains_key(r@[i].0@)
                &&& self@[r@[i].0@] == r@[i].1@
            },
            forall|id: Seq<char>| #[trigger] self@.contains_key(id) ==> self.ids().contains(id),
            self.ids().no_duplicates(),
    {
        let mut r: Vec<(String, DownloadEntry)> = Vec::new();
        let mut i: usize = 0;
        while i < self.entries.len()
            invariant
                self.wf(),
                i <= self.entries@.len(),
                r@.len() == i,
                forall|j: int| 0 <= j < i ==> {
                    &&& (#[trigger] r@[j]).0@ == self.ids()[j]
                    &&& self@.contains_key(r@[j].0@)
                    &&& self@[r@[j].0@] == r@[j].1@
                },
            decreases self.entries@.len() - i,
        {
            proof {
                self.lemma_view_at(i as int);
            }
            let id = self.entries[i].0.clone();
            let e = self.entries[i].1.duplicate();
            r.push((id, e));
            i = i + 1;
        }
        proof {
            assert forall|id: Seq<char>| #[trigger] self@.contains_key(id) implies self.ids().contains(id) by {
                let j = choose|j: int| 0 <= j < self.entries@.len() && self.entries@[j].0@ == id;
                assert(self.ids()[j] == id);
            }
            assert forall|a: int, b: int| 0 <= a < self.ids().len() && 0 <= b < self.ids().len() && a != b implies
                self.ids()[a] != self.ids()[b] by {
                if a < b {
                    assert(self.entries@[a].0@ != self.entries@[b].0@);
                } else {
                    assert(self.entries@[b].0@ != self.entries@[a].0@);
                }
            }
        }
        r
    }
}


/// The downloads that the application tracks, by download id.
pub struct DownloadRegistry {
    list: EntryList,
}

impl View for DownloadRegistry {
    type V = Map<Seq<char>, EntryView>;

    closed spec fn view(&self) -> Map<Seq<char>, EntryView> {
        self.list@
    }
}

impl DownloadRegistry {
    /// No id is recorded twice.
    #[verifier::type_invariant]
    closed spec fn inv(self) -> bool {
        self.list.wf()
    }

    /// The ids, in the order in which they were first recorded.
    pub closed spec fn ids(&self) -> Seq<Seq<char>> {
        self.list.ids()
    }

    /// An empty registry.
    pub fn new() -> (r: DownloadRegistry)
        ensures
            r@ == Map::<Seq<char>, EntryView>::empty(),
    {
        DownloadRegistry { list: EntryList::new() }
    }

    /// The entry recorded for `id`, if any.
    pub fn get(&self, id: &String) -> (r: Option<DownloadEntry>)
        ensures
            match r {
                Some(e) => self@.contains_key(id@) && self@[id@] == e@,
                None => !self@.contains_key(id@),
            },
    {
        proof {
            use_type_invariant(self);
        }
        self.list.get(id)
    }

    /// Records `entry` for `id`, replacing whatever was recorded for it.
    pub fn insert(&mut self, id: String, entry: DownloadEntry)
        ensures
            final(self)@ == old(self)@.insert(id@, entry@),
    {
        proof {
            use_type_invariant(&*self);
        }
        let mut list = EntryList::new();
        std::mem::swap(&mut list, &mut self.list);
        list.insert(id, entry);
        self.list = list;
    }

    /// Overwrites, in the entry recorded for `id`, every field that `patch` sets; does
    /// nothing when `id` is not recorded.
    pub fn update(&mut self, id: &String, patch: DownloadEntry)
        ensures
            old(self)@.contains_key(id@) ==> final(self)@ == old(self)@.insert(id@, merged(old(self)@[id@], patch@)),
            !old(self)@.contains_key(id@) ==> final(self)@ == old(self)@,
    {
        proof {
            use_type_invariant(&*self);
        }
        let mut list = EntryList::new();
        std::mem::swap(&mut list, &mut self.list);
        list.update(id, patch);
        self.list = list;
    }

    /// Forgets `id`, returning what was recorded for it.
    pub fn remove(&mut self, id: &String) -> (r: Option<DownloadEntry>)
        ensures
            final(self)@ == old(self)@.remove(id@),
            match r {
                Some(e) => old(self)@.contains_key(id@) && old(self)@[id@] == e@,
                None => !old(self)@.contains_key(id@),
            },
    {
        proof {
            use_type_invariant(&*self);
        }
        let mut list = EntryList::new();
        std::mem::swap(&mut list, &mut self.list);
        let r = list.remove(id);
        self.list = list;
        r
    }

    /// The entry recorded for `id`, or the message given when there is none.
    pub fn progress_of(&self, id: &String) -> (r: Result<DownloadEntry, String>)
        ensures
            match r {
                Ok(e) => self@.contains_key(id@) && self@[id@] == e@,
                Err(m) => !self@.contains_key(id@) && m@ == "download_id not found"@,
            },
    {
        proof {
            use_type_invariant(self);
        }
        self.list.progress_of(id)
    }

    /// Completes the entry recorded for `id` from its folder when it lacks a title or a cover
    /// and has a folder: the folder's name becomes its title and the cover found there its
    /// cover (each only when given).
    pub fn enrich(&mut self, id: &String, folder_name: Option<String>, cover: Option<String>)
        ensures
            final(self)@ == (if old(self)@.contains_key(id@) && needs_enrichment(old(self)@[id@]) {
                old(self)@.insert(id@, enriched(old(self)@[id@], opt_view(folder_name), opt_view(cover)))
            } else {
                old(self)@
            }),
    {
        proof {
            use_type_invariant(&*self);
        }
        let mut list = EntryList::new();
        std::mem::swap(&mut list, &mut self.list);
        list.enrich(id, folder_name, cover);
        self.list = list;
    }

    /// Every recorded download, as `(id, entry)` pairs, one per id.
    pub fn snapshot(&self) -> (r: Vec<(String, DownloadEntry)>)
        ensures
            r@.len() == self.ids().len(),
            forall|i: int| 0 <= i < r@.len() ==> {
                &&& (#[trigger] r@[i]).0@ == self.ids()[i]
                &&& self@.contains_key(r@[i].0@)
                &&& self@[r@[i].0@] == r@[i].1@
            },
            forall|id: Seq<char>| #[trigger] self@.contains_key(id) ==> self.ids().contains(id),
            self.ids().no_duplicates(),
    {
        proof {
            use_type_invariant(self);
        }
        self.list.snapshot()
    }
}

// ---------------------------------------------------------------------------
// The entries of a download run
// ---------------------------------------------------------------------------

/// The final status of a run: `completed` when it succeeded, else `failed`.
pub open spec fn final_status_spec(ok: bool) -> Seq<char> {
    if ok {
        "completed"@
    } else {
        "failed"@
    }
}

/// A status that a run ends with: `completed`, `failed` or `error`.
pub open spec fn settled_status(s: Seq<char>) -> bool {
    s == "completed"@ || s == "failed"@ || s == "error"@
}

/// A progress, when set, is a percentage: at most 100.
pub open spec fn progress_in_range(e: EntryView) -> bool {
    e.progress matches Some(p) ==> p <= 100
}

/// The entry a download starts with: running, in `dest`, at 0%.
pub open spec fn running_view(dest: Seq<char>) -> EntryView {
    EntryView { status: Some("running"@), dest: Some(dest), progress: Some(0), ..empty_view() }
}

/// The entry of a download that could not run: status `error` and the message.
pub open spec fn error_view(msg: Seq<char>) -> EntryView {
    EntryView { status: Some("error"@), error: Some(msg), ..empty_view() }
}

/// The patch that ends a run of the external tool: its final status, at 100%.
pub open spec fn finished_view(ok: bool) -> EntryView {
    EntryView { status: Some(final_status_spec(ok)), progress: Some(100), ..empty_view() }
}

/// The patch that ends a built-in download: completed at 100%, with its folder, title and
/// cover.
pub open spec fn completed_view(dest: Seq<char>, title: Option<Seq<char>>, cover: Option<Seq<char>>) -> EntryView {
    EntryView {
        status: Some("completed"@),
        progress: Some(100),
        dest: Some(dest),
        title: title,
        cover_path: cover,
        ..empty_view()
    }
}

impl DownloadEntry {
    /// The entry a download starts with: running, in `dest`, at 0%.
    pub fn running(dest: String) -> (r: DownloadEntry)
        ensures
            r@ == running_view(dest@),
    {
        let mut e = DownloadEntry::empty();
        e.status = Some(crate::text::owned("running"));
        e.dest = Some(dest);
        e.progress = Some(0);
        e
    }

    /// The entry of a download that could not run: status `error` and the message.
    pub fn failure(msg: String) -> (r: DownloadEntry)
        ensures
            r@ == error_view(msg@),
    {
        let mut e = DownloadEntry::empty();
        e.status = Some(crate::text::owned("error"));
        e.error = Some(msg);
        e
    }

    /// The patch that ends a run of the external tool: its final status, at 100%.
    pub fn finished(ok: bool) -> (r: DownloadEntry)
        ensures
            r@ == finished_view(ok),
    {
        let mut e = DownloadEntry::empty();
        e.status = Some(crate::download::final_status(ok));
        e.progress = Some(100);
        e
    }

    /// The patch that ends a built-in download: completed at 100%, with its folder, title
    /// and cover.
    pub fn completed(dest: String, title: Option<String>, cover: Option<String>) -> (r: DownloadEntry)
        ensures
            r@ == completed_view(dest@, opt_view(title), opt_view(cover)),
    {
        let mut e = DownloadEntry::empty();
        e.status = Some(crate::text::owned("completed"));
        e.progress = Some(100);
        e.dest = Some(dest);
        e.title = title;
        e.cover_path = cover;
        e
    }
}

} // verus!
