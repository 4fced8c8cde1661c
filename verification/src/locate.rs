//! Where agent, skill and configuration files are looked for, and in which order.
use vstd::prelude::*;

use crate::paths::{directories_upward, join_path};

verus! {

/// The base directories below `root`, in order of preference: `first`, the further directory of
/// the given name if there is one, and `last`.
pub open spec fn bases(
    first: Seq<char>,
    root: Seq<char>,
    further: Option<Seq<char>>,
    last: Seq<char>,
) -> Seq<Seq<char>> {
    match further {
        Some(name) => seq![first, crate::paths::joined(root, name), last],
        None => seq![first, last],
    }
}

/// The directories of a directory of the walk that hold definitions, in order of preference.
pub open spec fn local_bases(dir: Seq<char>, further: Option<Seq<char>>) -> Seq<Seq<char>> {
    bases(
        crate::paths::joined(dir, ".opencode"@),
        dir,
        further,
        crate::paths::joined(dir, ".agents"@),
    )
}

/// The directories of a home directory that hold definitions, in order of preference.
pub open spec fn global_bases(home: Seq<char>, further: Option<Seq<char>>) -> Seq<Seq<char>> {
    bases(
        crate::paths::joined(crate::paths::joined(home, ".config"@), "opencode"@),
        home,
        further,
        crate::paths::joined(home, ".agents"@),
    )
}

/// The places for a file in one base directory: each subdirectory, then the base itself.
pub open spec fn base_candidates(
    base: Seq<char>,
    subdirs: Seq<Seq<char>>,
    filename: Seq<char>,
) -> Seq<Seq<char>> {
    Seq::new(
        subdirs.len(),
        |i: int| crate::paths::joined(crate::paths::joined(base, subdirs[i]), filename),
    ).push(crate::paths::joined(base, filename))
}

/// The places for a file in several base directories, one base after the other.
pub open spec fn bases_candidates(
    bases: Seq<Seq<char>>,
    subdirs: Seq<Seq<char>>,
    filename: Seq<char>,
) -> Seq<Seq<char>>
    decreases bases.len(),
{
    if bases.len() == 0 {
        seq![]
    } else {
        bases_candidates(bases.drop_last(), subdirs, filename) + base_candidates(
            bases.last(),
            subdirs,
            filename,
        )
    }
}

/// The places for a file below one directory of the walk.
pub open spec fn dir_candidates(
    dir: Seq<char>,
    further: Option<Seq<char>>,
    subdirs: Seq<Seq<char>>,
    filename: Seq<char>,
) -> Seq<Seq<char>> {
    bases_candidates(local_bases(dir, further), subdirs, filename)
}

/// The places for a file below the home directory, if there is one.
pub open spec fn home_candidates(
    home: Option<Seq<char>>,
    further: Option<Seq<char>>,
    subdirs: Seq<Seq<char>>,
    filename: Seq<char>,
) -> Seq<Seq<char>> {
    match home {
        Some(home) => bases_candidates(global_bases(home, further), subdirs, filename),
        None => seq![],
    }
}

/// The first candidate that exists.
pub open spec fn first_existing(
    candidates: Seq<Seq<char>>,
    exists_at: spec_fn(Seq<char>) -> bool,
) -> Option<Seq<char>>
    decreases candidates.len(),
{
    if candidates.len() == 0 {
        None
    } else if exists_at(candidates[0]) {
        Some(candidates[0])
    } else {
        first_existing(candidates.skip(1), exists_at)
    }
}

/// What a walk over `dirs`, from the nearest outwards, finds: the first candidate of the first
/// directory that has one. The walk ends with the directory that holds `.git`.
pub open spec fn walk_finds(
    dirs: Seq<Seq<char>>,
    further: Option<Seq<char>>,
    subdirs: Seq<Seq<char>>,
    filename: Seq<char>,
    exists_at: spec_fn(Seq<char>) -> bool,
) -> Option<Seq<char>>
    decreases dirs.len(),
{
    if dirs.len() == 0 {
        None
    } else {
        let dir = dirs[0];
        let here = first_existing(dir_candidates(dir, further, subdirs, filename), exists_at);
        if here is Some {
            here
        } else if exists_at(crate::paths::joined(dir, ".git"@)) {
            None
        } else {
            walk_finds(dirs.skip(1), further, subdirs, filename, exists_at)
        }
    }
}

/// What a search finds: a local definition, and only without one a global definition.
pub open spec fn search_finds(
    dirs: Seq<Seq<char>>,
    home: Option<Seq<char>>,
    further: Option<Seq<char>>,
    subdirs: Seq<Seq<char>>,
    filename: Seq<char>,
    exists_at: spec_fn(Seq<char>) -> bool,
) -> Option<Seq<char>> {
    let local = walk_finds(dirs, further, subdirs, filename, exists_at);
    if local is Some {
        local
    } else {
        first_existing(home_candidates(home, further, subdirs, filename), exists_at)
    }
}

// --- the search, one question at a time ---

/// A question to the file system.
#[derive(Clone, Debug)]
pub enum Probe {
    /// Whether the file is here.
    Candidate(String),
    /// Whether the walk ends here.
    Boundary(String),
}

/// A probe by the characters of its path.
pub enum ProbeView {
    Candidate(Seq<char>),
    Boundary(Seq<char>),
}

impl View for Probe {
    type V = ProbeView;

    open spec fn view(&self) -> ProbeView {
        match self {
            Probe::Candidate(path) => ProbeView::Candidate(path@),
            Probe::Boundary(path) => ProbeView::Boundary(path@),
        }
    }
}

impl ProbeView {
    /// The path that is asked about.
    pub open spec fn path(self) -> Seq<char> {
        match self {
            ProbeView::Candidate(path) => path,
            ProbeView::Boundary(path) => path,
        }
    }
}

/// The state of a search: all its probes, where those below the home directory begin, the next
/// probe, and what was found.
pub struct SearchView {
    pub probes: Seq<ProbeView>,
    pub globals_at: int,
    pub next: int,
    pub found: Option<Seq<char>>,
}

impl SearchView {
    /// Whether no question is left.
    pub open spec fn is_over(self) -> bool {
        self.next >= self.probes.len()
    }

    /// Whether the search is over and has found nothing.
    pub open spec fn is_exhausted(self) -> bool {
        self.is_over() && self.found is None
    }

    /// How many questions may still come.
    pub open spec fn remaining(self) -> int {
        self.probes.len() - self.next
    }

    /// The state after an answer. A hit ends the search; a boundary ends the walk.
    pub open spec fn answered(self, exists_there: bool) -> SearchView {
        match self.probes[self.next] {
            ProbeView::Candidate(path) => if exists_there {
                SearchView { next: self.probes.len() as int, found: Some(path), ..self }
            } else {
                SearchView { next: self.next + 1, ..self }
            },
            ProbeView::Boundary(_) => if exists_there {
                SearchView { next: self.globals_at, ..self }
            } else {
                SearchView { next: self.next + 1, ..self }
            },
        }
    }

    /// Every boundary lies before the probes below the home directory.
    pub open spec fn well_formed(self) -> bool {
        &&& 0 <= self.next <= self.probes.len()
        &&& 0 <= self.globals_at <= self.probes.len()
        &&& forall|i: int|
            0 <= i < self.probes.len() && #[trigger] self.probes[i] is Boundary ==> i
                < self.globals_at
    }

    /// What the search finds when every question is answered by `exists_at`.
    pub open spec fn outcome(self, exists_at: spec_fn(Seq<char>) -> bool) -> Option<Seq<char>>
        decreases self.probes.len() - self.next,
    {
        if !self.well_formed() || self.is_over() {
            self.found
        } else {
            self.answered(exists_at(self.probes[self.next].path())).outcome(exists_at)
        }
    }
}

/// The paths as candidates.
pub open spec fn candidate_probes(paths: Seq<Seq<char>>) -> Seq<ProbeView> {
    Seq::new(paths.len(), |i: int| ProbeView::Candidate(paths[i]))
}

/// The probes of a walk over directories.
pub open spec fn walk_probes(
    dirs: Seq<Seq<char>>,
    further: Option<Seq<char>>,
    subdirs: Seq<Seq<char>>,
    filename: Seq<char>,
) -> Seq<ProbeView>
    decreases dirs.len(),
{
    if dirs.len() == 0 {
        seq![]
    } else {
        walk_probes(dirs.drop_last(), further, subdirs, filename) + candidate_probes(
            dir_candidates(dirs.last(), further, subdirs, filename),
        ).push(ProbeView::Boundary(crate::paths::joined(dirs.last(), ".git"@)))
    }
}

/// The state in which a search for a file begins.
pub open spec fn search_start(
    dirs: Seq<Seq<char>>,
    home: Option<Seq<char>>,
    further: Option<Seq<char>>,
    subdirs: Seq<Seq<char>>,
    filename: Seq<char>,
) -> SearchView {
    let walk = walk_probes(dirs, further, subdirs, filename);
    SearchView {
        probes: walk + candidate_probes(home_candidates(home, further, subdirs, filename)),
        globals_at: walk.len() as int,
        next: 0,
        found: None,
    }
}

/// A search for a file that asks one question at a time.
#[derive(Clone, Debug)]
pub struct Search {
    probes: Vec<Probe>,
    globals_at: usize,
    next: usize,
    found: Option<String>,
}

/// The views of probes.
pub open spec fn probe_views(probes: Seq<Probe>) -> Seq<ProbeView> {
    Seq::new(probes.len(), |i: int| probes[i]@)
}

impl View for Search {
    type V = SearchView;

    closed spec fn view(&self) -> SearchView {
        SearchView {
            probes: probe_views(self.probes@),
            globals_at: self.globals_at as int,
            next: self.next as int,
            found: match self.found {
                Some(path) => Some(path@),
                None => None,
            },
        }
    }
}

/// Adds the places for a file in one base directory.
fn push_base(probes: &mut Vec<Probe>, base: &str, subdirs: &Vec<String>, filename: &str)
    ensures
        probe_views(final(probes)@) == probe_views(old(probes)@) + candidate_probes(
            base_candidates(base@, crate::text::views(subdirs@), filename@),
        ),
{
    let ghost start = probe_views(probes@);
    let ghost inner = crate::text::views(subdirs@);
    let ghost all = candidate_probes(base_candidates(base@, inner, filename@));
    let mut i: usize = 0;
    assert(probe_views(probes@) == start + all.take(0));
    while i < subdirs.len()
        invariant
            i <= subdirs@.len(),
            inner == crate::text::views(subdirs@),
            all == candidate_probes(base_candidates(base@, inner, filename@)),
            probe_views(probes@) == start + all.take(i as int),
        decreases subdirs@.len() - i,
    {
        let ghost before = probes@;
        let subdir = join_path(base, subdirs[i].as_str());
        let path = join_path(subdir.as_str(), filename);
        probes.push(Probe::Candidate(path));
        assert(probe_views(probes@) == probe_views(before).push(all[i as int]));
        assert(all.take(i + 1) == all.take(i as int).push(all[i as int]));
        i = i + 1;
    }
    let ghost before = probes@;
    probes.push(Probe::Candidate(join_path(base, filename)));
    assert(probe_views(probes@) == probe_views(before).push(all[i as int]));
    assert(all == all.take(i as int).push(all[i as int]));
}

/// The candidates of one base more come after those of the others.
proof fn lemma_one_more_base(
    bases: Seq<Seq<char>>,
    base: Seq<char>,
    subdirs: Seq<Seq<char>>,
    filename: Seq<char>,
)
    ensures
        candidate_probes(bases_candidates(bases.push(base), subdirs, filename))
            == candidate_probes(bases_candidates(bases, subdirs, filename)) + candidate_probes(
            base_candidates(base, subdirs, filename),
        ),
{
    assert(bases.push(base).drop_last() == bases);
}

/// Adds the places for a file in all base directories below `root`.
fn push_bases(
    probes: &mut Vec<Probe>,
    first: &str,
    root: &str,
    further: &Option<String>,
    last: &str,
    subdirs: &Vec<String>,
    filename: &str,
)
    ensures
        probe_views(final(probes)@) == probe_views(old(probes)@) + candidate_probes(
            bases_candidates(
                bases(first@, root@, crate::text::opt_view(*further), last@),
                crate::text::views(subdirs@),
                filename@,
            ),
        ),
{
    let ghost views = crate::text::views(subdirs@);
    let ghost mut done = Seq::<Seq<char>>::empty();
    push_base(probes, first, subdirs, filename);
    proof {
        lemma_one_more_base(done, first@, views, filename@);
        done = done.push(first@);
    }
    match further {
        Some(name) => {
            let base = join_path(root, name.as_str());
            push_base(probes, base.as_str(), subdirs, filename);
            proof {
                lemma_one_more_base(done, base@, views, filename@);
                done = done.push(base@);
            }
        },
        None => {},
    }
    push_base(probes, last, subdirs, filename);
    proof {
        lemma_one_more_base(done, last@, views, filename@);
        assert(done.push(last@) == bases(
            first@,
            root@,
            crate::text::opt_view(*further),
            last@,
        ));
    }
}

/// Adds the places for a file below the home directory.
fn push_home(
    probes: &mut Vec<Probe>,
    home: &Option<String>,
    further: &Option<String>,
    subdirs: &Vec<String>,
    filename: &str,
)
    ensures
        probe_views(final(probes)@) == probe_views(old(probes)@) + candidate_probes(
            home_candidates(
                crate::text::opt_view(*home),
                crate::text::opt_view(*further),
                crate::text::views(subdirs@),
                filename@,
            ),
        ),
{
    match home {
        Some(home) => {
            let config = join_path(home.as_str(), ".config");
            let first = join_path(config.as_str(), "opencode");
            let last = join_path(home.as_str(), ".agents");
            push_bases(
                probes,
                first.as_str(),
                home.as_str(),
                further,
                last.as_str(),
                subdirs,
                filename,
            );
        },
        None => {},
    }
}

impl Search {
    /// Begins a search for `filename`: in the directories `dirs`, from the nearest outwards, and
    /// then below the home directory. A `further` directory name is looked at between `.opencode`
    /// and `.agents`.
    pub fn new(
        dirs: &Vec<String>,
        home: &Option<String>,
        further: &Option<String>,
        subdirs: &Vec<String>,
        filename: &str,
    ) -> (search: Search)
        ensures
            search@ == search_start(
                crate::text::views(dirs@),
                crate::text::opt_view(*home),
                crate::text::opt_view(*further),
                crate::text::views(subdirs@),
                filename@,
            ),
            search@.well_formed(),
    {
        let mut probes: Vec<Probe> = Vec::new();
        let mut i: usize = 0;
        let ghost all = crate::text::views(dirs@);
        let ghost also = crate::text::opt_view(*further);
        let ghost inner = crate::text::views(subdirs@);
        assert(probe_views(probes@) == walk_probes(all.take(0), also, inner, filename@));
        while i < dirs.len()
            invariant
                i <= dirs@.len(),
                all == crate::text::views(dirs@),
                also == crate::text::opt_view(*further),
                inner == crate::text::views(subdirs@),
                probe_views(probes@) == walk_probes(all.take(i as int), also, inner, filename@),
            decreases dirs@.len() - i,
        {
            let ghost next = all.take(i + 1);
            assert(next.drop_last() == all.take(i as int));
            let ghost start = probe_views(probes@);
            let dir = dirs[i].as_str();
            let first = join_path(dir, ".opencode");
            let last = join_path(dir, ".agents");
            push_bases(
                &mut probes,
                first.as_str(),
                dir,
                further,
                last.as_str(),
                subdirs,
                filename,
            );
            let ghost before = probes@;
            let boundary = join_path(dir, ".git");
            probes.push(Probe::Boundary(boundary));
            assert(probe_views(probes@) == probe_views(before).push(
                ProbeView::Boundary(boundary@),
            ));
            i = i + 1;
        }
        assert(all.take(i as int) == all);
        let globals_at = probes.len();
        push_home(&mut probes, home, further, subdirs, filename);
        Search { probes, globals_at, next: 0, found: None }
    }

    /// Begins a search through a plain list of paths.
    pub fn among(paths: &Vec<String>) -> (search: Search)
        ensures
            search@ == list_start(crate::text::views(paths@)),
            search@.well_formed(),
    {
        let mut probes: Vec<Probe> = Vec::new();
        let mut i: usize = 0;
        while i < paths.len()
            invariant
                i <= paths@.len(),
                probes@.len() == i,
                forall|j: int|
                    0 <= j < i ==> (#[trigger] probes@[j])@ == ProbeView::Candidate(paths@[j]@),
            decreases paths@.len() - i,
        {
            probes.push(Probe::Candidate(paths[i].clone()));
            i = i + 1;
        }
        assert(probe_views(probes@) == candidate_probes(crate::text::views(paths@)));
        let globals_at = probes.len();
        Search { probes, globals_at, next: 0, found: None }
    }

    /// The path to ask about next, or `None` once the search is over.
    pub fn target(&self) -> (path: Option<String>)
        requires
            self@.well_formed(),
        ensures
            path is None <==> self@.is_over(),
            path is Some ==> path->0@ == self@.probes[self@.next].path(),
    {
        if self.next < self.probes.len() {
            match &self.probes[self.next] {
                Probe::Candidate(path) => Some(path.clone()),
                Probe::Boundary(path) => Some(path.clone()),
            }
        } else {
            None
        }
    }

    /// Whether the question is about the end of the walk.
    pub fn at_boundary(&self) -> (answer: bool)
        requires
            self@.well_formed(),
            !self@.is_over(),
        ensures
            answer == (self@.probes[self@.next] is Boundary),
    {
        match &self.probes[self.next] {
            Probe::Candidate(_) => false,
            Probe::Boundary(_) => true,
        }
    }

    /// Takes the answer to the question about `target`.
    pub fn answer(&mut self, exists_there: bool)
        requires
            old(self)@.well_formed(),
            !old(self)@.is_over(),
        ensures
            final(self)@ == old(self)@.answered(exists_there),
            final(self)@.well_formed(),
    {
        let count = self.probes.len();
        match &self.probes[self.next] {
            Probe::Candidate(path) => if exists_there {
                self.found = Some(path.clone());
                self.next = count;
            } else {
                self.next = self.next + 1;
            },
            Probe::Boundary(_) => if exists_there {
                self.next = self.globals_at;
            } else {
                self.next = self.next + 1;
            },
        }
    }

    /// Whether the search is over and has found nothing.
    fn exhausted(&self) -> (answer: bool)
        requires
            self@.well_formed(),
        ensures
            answer == self@.is_exhausted(),
    {
        self.next >= self.probes.len() && self.found.is_none()
    }

    /// What was found so far.
    pub fn found(&self) -> (path: Option<String>)
        ensures
            path is Some == self@.found is Some,
            path is Some ==> path->0@ == self@.found->0,
    {
        self.found.clone()
    }
}

/// The state in which a search through a list of paths begins.
pub open spec fn list_start(paths: Seq<Seq<char>>) -> SearchView {
    SearchView {
        probes: candidate_probes(paths),
        globals_at: paths.len() as int,
        next: 0,
        found: None,
    }
}

/// Begins the search for an agent's file.
pub fn agent_search(
    dirs: &Vec<String>,
    home: &Option<String>,
    further: &Option<String>,
    agent_name: &str,
) -> (search: Search)
    ensures
        search@ == search_start(
            crate::text::views(dirs@),
            crate::text::opt_view(*home),
            crate::text::opt_view(*further),
            seq!["agents"@],
            agent_name@ + ".md"@,
        ),
        search@.well_formed(),
{
    let mut subdirs: Vec<String> = Vec::new();
    subdirs.push("agents".to_owned());
    assert(crate::text::views(subdirs@) == seq!["agents"@]);
    let filename = agent_name.to_owned().concat(".md");
    Search::new(dirs, home, further, &subdirs, filename.as_str())
}

/// Begins the search for an agent's file at the current directory, and upwards from there.
pub fn agent_search_from(
    current_dir: &str,
    home: &Option<String>,
    further: &Option<String>,
    agent_name: &str,
) -> (search: Search)
    ensures
        search@ == search_start(
            crate::paths::upward(current_dir@),
            crate::text::opt_view(*home),
            crate::text::opt_view(*further),
            seq!["agents"@],
            agent_name@ + ".md"@,
        ),
        search@.well_formed(),
{
    agent_search(&directories_upward(current_dir), home, further, agent_name)
}

/// Begins a pass through the directories that a search looks into, in its order: the
/// subdirectory of each base directory, and the base directory itself.
pub fn places_search(
    dirs: &Vec<String>,
    home: &Option<String>,
    further: &Option<String>,
    subdir: &str,
) -> (search: Search)
    ensures
        search@ == search_start(
            crate::text::views(dirs@),
            crate::text::opt_view(*home),
            crate::text::opt_view(*further),
            seq![subdir@],
            seq![],
        ),
        search@.well_formed(),
{
    let mut subdirs: Vec<String> = Vec::new();
    subdirs.push(subdir.to_owned());
    assert(crate::text::views(subdirs@) == seq![subdir@]);
    proof {
        reveal_strlit("");
        assert(""@ == Seq::<char>::empty());
    }
    Search::new(dirs, home, further, &subdirs, "")
}

/// The state of a search for a skill: a search for a local `<name>/SKILL.md`, one for a local
/// `<name>.md` that is taken up when the first finds nothing, and one below the home directory
/// that is taken up when both find nothing.
pub struct SkillSearchView {
    pub folder: SearchView,
    pub file: SearchView,
    pub global: SearchView,
}

impl SkillSearchView {
    pub open spec fn well_formed(self) -> bool {
        self.folder.well_formed() && self.file.well_formed() && self.global.well_formed()
    }

    /// The search that asks.
    pub open spec fn active(self) -> SearchView {
        if !self.folder.is_exhausted() {
            self.folder
        } else if !self.file.is_exhausted() {
            self.file
        } else {
            self.global
        }
    }

    /// The state after an answer.
    pub open spec fn answered(self, exists_there: bool) -> SkillSearchView {
        if !self.folder.is_exhausted() {
            SkillSearchView { folder: self.folder.answered(exists_there), ..self }
        } else if !self.file.is_exhausted() {
            SkillSearchView { file: self.file.answered(exists_there), ..self }
        } else {
            SkillSearchView { global: self.global.answered(exists_there), ..self }
        }
    }

    /// How many questions may still come.
    pub open spec fn remaining(self) -> int {
        self.folder.remaining() + self.file.remaining() + self.global.remaining()
    }

    /// What the search finds when every question is answered by `exists_at`.
    pub open spec fn outcome(self, exists_at: spec_fn(Seq<char>) -> bool) -> Option<Seq<char>> {
        if self.folder.outcome(exists_at) is Some {
            self.folder.outcome(exists_at)
        } else if self.file.outcome(exists_at) is Some {
            self.file.outcome(exists_at)
        } else {
            self.global.outcome(exists_at)
        }
    }
}

/// The places for a skill below the home directory: all for its folder, then all for its file.
pub open spec fn global_skill_places(
    home: Option<Seq<char>>,
    further: Option<Seq<char>>,
    skill_name: Seq<char>,
) -> Seq<Seq<char>> {
    home_candidates(home, further, seq!["skills"@], skill_name + "/SKILL.md"@) + home_candidates(
        home,
        further,
        seq!["skills"@],
        skill_name + ".md"@,
    )
}

/// The state in which the search for a skill begins.
pub open spec fn skill_start(
    dirs: Seq<Seq<char>>,
    home: Option<Seq<char>>,
    further: Option<Seq<char>>,
    skill_name: Seq<char>,
) -> SkillSearchView {
    SkillSearchView {
        folder: search_start(dirs, None, further, seq!["skills"@], skill_name + "/SKILL.md"@),
        file: search_start(dirs, None, further, seq!["skills"@], skill_name + ".md"@),
        global: list_start(global_skill_places(home, further, skill_name)),
    }
}

/// A search for a skill's file that asks one question at a time.
#[derive(Clone, Debug)]
pub struct SkillSearch {
    folder: Search,
    file: Search,
    global: Search,
}

impl View for SkillSearch {
    type V = SkillSearchView;

    closed spec fn view(&self) -> SkillSearchView {
        SkillSearchView { folder: self.folder@, file: self.file@, global: self.global@ }
    }
}

impl SkillSearch {
    /// Begins the search for a skill's file.
    pub fn new(
        dirs: &Vec<String>,
        home: &Option<String>,
        further: &Option<String>,
        skill_name: &str,
    ) -> (search: SkillSearch)
        ensures
            search@ == skill_start(
                crate::text::views(dirs@),
                crate::text::opt_view(*home),
                crate::text::opt_view(*further),
                skill_name@,
            ),
            search@.well_formed(),
    {
        let mut subdirs: Vec<String> = Vec::new();
        subdirs.push("skills".to_owned());
        let ghost inner = seq!["skills"@];
        assert(crate::text::views(subdirs@) == inner);
        let folder = skill_name.to_owned().concat("/SKILL.md");
        let file = skill_name.to_owned().concat(".md");
        let mut probes: Vec<Probe> = Vec::new();
        push_home(&mut probes, home, further, &subdirs, folder.as_str());
        push_home(&mut probes, home, further, &subdirs, file.as_str());
        let globals_at = probes.len();
        let global = Search { probes, globals_at, next: 0, found: None };
        assert(global@.probes == candidate_probes(
            global_skill_places(
                crate::text::opt_view(*home),
                crate::text::opt_view(*further),
                skill_name@,
            ),
        ));
        SkillSearch {
            folder: Search::new(dirs, &None, further, &subdirs, folder.as_str()),
            file: Search::new(dirs, &None, further, &subdirs, file.as_str()),
            global,
        }
    }

    /// Begins the search for a skill's file at the current directory, and upwards from there.
    pub fn from_dir(
        current_dir: &str,
        home: &Option<String>,
        further: &Option<String>,
        skill_name: &str,
    ) -> (search: SkillSearch)
        ensures
            search@ == skill_start(
                crate::paths::upward(current_dir@),
                crate::text::opt_view(*home),
                crate::text::opt_view(*further),
                skill_name@,
            ),
            search@.well_formed(),
    {
        SkillSearch::new(&directories_upward(current_dir), home, further, skill_name)
    }

    /// The path to ask about next, or `None` once the search is over.
    pub fn target(&self) -> (path: Option<String>)
        requires
            self@.well_formed(),
        ensures
            path is None <==> self@.active().is_over(),
            path is Some ==> path->0@ == self@.active().probes[self@.active().next].path(),
    {
        if !self.folder.exhausted() {
            self.folder.target()
        } else if !self.file.exhausted() {
            self.file.target()
        } else {
            self.global.target()
        }
    }

    /// Takes the answer to the question about `target`.
    pub fn answer(&mut self, exists_there: bool)
        requires
            old(self)@.well_formed(),
            !old(self)@.active().is_over(),
        ensures
            final(self)@ == old(self)@.answered(exists_there),
            final(self)@.well_formed(),
    {
        if !self.folder.exhausted() {
            self.folder.answer(exists_there);
        } else if !self.file.exhausted() {
            self.file.answer(exists_there);
        } else {
            self.global.answer(exists_there);
        }
    }

    /// What was found so far.
    pub fn found(&self) -> (path: Option<String>)
        requires
            self@.well_formed(),
        ensures
            path is Some == self@.active().found is Some,
            path is Some ==> path->0@ == self@.active().found->0,
    {
        if !self.folder.exhausted() {
            self.folder.found()
        } else if !self.file.exhausted() {
            self.file.found()
        } else {
            self.global.found()
        }
    }
}

/// Where a definition that was not found has been looked for.
pub open spec fn not_found_ending(further: Option<Seq<char>>) -> Seq<char> {
    match further {
        Some(name) => "' not found in .opencode/, "@ + name + "/, or .agents/ directories"@,
        None => "' not found in .opencode/ or .agents/ directories"@,
    }
}

/// Says where a definition has been looked for.
fn not_found_text(further: &Option<String>) -> (text: String)
    ensures
        text@ == not_found_ending(crate::text::opt_view(*further)),
{
    match further {
        Some(name) => "' not found in .opencode/, ".to_owned().concat(name.as_str()).concat(
            "/, or .agents/ directories",
        ),
        None => "' not found in .opencode/ or .agents/ directories".to_owned(),
    }
}

/// What to say of an agent that was not found.
pub fn agent_not_found(agent_name: &str, further: &Option<String>) -> (text: String)
    ensures
        text@ == "Agent '"@ + agent_name@ + not_found_ending(crate::text::opt_view(*further)),
        *further matches Some(name) ==> text@ == "Agent '"@ + agent_name@ + (
        "' not found in .opencode/, "@ + name@ + "/, or .agents/ directories"@),
        *further is None ==> text@ == "Agent '"@ + agent_name@
            + "' not found in .opencode/ or .agents/ directories"@,
{
    "Agent '".to_owned().concat(agent_name).concat(not_found_text(further).as_str())
}

/// What to say of a skill that was not found.
pub fn skill_not_found(skill_name: &str, further: &Option<String>) -> (text: String)
    ensures
        text@ == "Skill '"@ + skill_name@ + not_found_ending(crate::text::opt_view(*further)),
        *further matches Some(name) ==> text@ == "Skill '"@ + skill_name@ + (
        "' not found in .opencode/, "@ + name@ + "/, or .agents/ directories"@),
        *further is None ==> text@ == "Skill '"@ + skill_name@
            + "' not found in .opencode/ or .agents/ directories"@,
{
    "Skill '".to_owned().concat(skill_name).concat(not_found_text(further).as_str())
}

/// What to say of an agent whose file cannot be used.
pub fn agent_error(agent_name: &str, detail: &str) -> (text: String)
    ensures
        text@ == "agent '"@ + agent_name@ + "': "@ + detail@,
{
    "agent '".to_owned().concat(agent_name).concat("': ").concat(detail)
}

/// What to say of a skill that is left out of the prompt.
pub fn skill_warning(skill_name: &str, detail: &str) -> (text: String)
    ensures
        text@ == "warning: failed to load skill '"@ + skill_name@ + "': "@ + detail@,
{
    "warning: failed to load skill '".to_owned().concat(skill_name).concat("': ").concat(detail)
}

/// Where a configuration file may be, in order of preference.
pub open spec fn config_locations(home: Option<Seq<char>>) -> Seq<Seq<char>> {
    let local = seq!["airun.toml"@, ".airun.toml"@, ".config/airun.toml"@];
    match home {
        Some(home) => local.push(crate::paths::joined(home, ".config/airun/config.toml"@)),
        None => local,
    }
}

/// Lists where a configuration file may be: in the project, and then below the home directory.
pub fn config_paths(home: &Option<String>) -> (paths: Vec<String>)
    ensures
        crate::text::views(paths@) == config_locations(crate::text::opt_view(*home)),
        paths@.len() == 3 + (if home is Some {
            1int
        } else {
            0int
        }),
        paths@[0]@ == "airun.toml"@,
        paths@[1]@ == ".airun.toml"@,
        paths@[2]@ == ".config/airun.toml"@,
        *home matches Some(dir) ==> paths@[3]@ == crate::paths::joined(
            dir@,
            ".config/airun/config.toml"@,
        ),
{
    let mut paths: Vec<String> = Vec::new();
    paths.push("airun.toml".to_owned());
    paths.push(".airun.toml".to_owned());
    paths.push(".config/airun.toml".to_owned());
    match home {
        Some(home) => {
            paths.push(join_path(home.as_str(), ".config/airun/config.toml"));
        },
        None => {},
    }
    assert(crate::text::views(paths@) == config_locations(crate::text::opt_view(*home)));
    paths
}

// --- laws ---

/// A state of a search that has found nothing yet.
spec fn searching(probes: Seq<ProbeView>, globals_at: int, next: int) -> SearchView {
    SearchView { probes, globals_at, next, found: None }
}

/// A stretch of candidates yields the first that exists, or is passed over.
proof fn lemma_stretch(
    probes: Seq<ProbeView>,
    globals_at: int,
    at: int,
    paths: Seq<Seq<char>>,
    exists_at: spec_fn(Seq<char>) -> bool,
)
    requires
        searching(probes, globals_at, at).well_formed(),
        at + paths.len() <= probes.len(),
        forall|i: int|
            0 <= i < paths.len() ==> #[trigger] probes[at + i] == ProbeView::Candidate(paths[i]),
    ensures
        searching(probes, globals_at, at).outcome(exists_at) == (match first_existing(
            paths,
            exists_at,
        ) {
            Some(path) => Some(path),
            None => searching(probes, globals_at, at + paths.len()).outcome(exists_at),
        }),
    decreases paths.len(),
{
    if paths.len() > 0 {
        let state = searching(probes, globals_at, at);
        assert(probes[at + 0] == ProbeView::Candidate(paths[0]));
        if exists_at(paths[0]) {
            let after = state.answered(true);
            assert(after.outcome(exists_at) == Some(paths[0]));
        } else {
            assert(state.answered(false) == searching(probes, globals_at, at + 1));
            assert forall|i: int| 0 <= i < paths.skip(1).len() implies #[trigger] probes[at + 1 + i]
                == ProbeView::Candidate(paths.skip(1)[i]) by {
                assert(probes[at + (i + 1)] == ProbeView::Candidate(paths[i + 1]));
            }
            lemma_stretch(probes, globals_at, at + 1, paths.skip(1), exists_at);
        }
    }
}

/// The probes of the first `i` directories are the first of the walk.
proof fn lemma_walk_prefix(
    dirs: Seq<Seq<char>>,
    further: Option<Seq<char>>,
    subdirs: Seq<Seq<char>>,
    filename: Seq<char>,
    i: int,
)
    requires
        0 <= i <= dirs.len(),
    ensures
        walk_probes(dirs.take(i), further, subdirs, filename).is_prefix_of(
            walk_probes(dirs, further, subdirs, filename),
        ),
    decreases dirs.len(),
{
    let whole = walk_probes(dirs, further, subdirs, filename);
    if i == dirs.len() {
        assert(dirs.take(i) == dirs);
    } else {
        let shorter = dirs.drop_last();
        lemma_walk_prefix(shorter, further, subdirs, filename, i);
        assert(shorter.take(i) == dirs.take(i));
        let part = walk_probes(dirs.take(i), further, subdirs, filename);
        let most = walk_probes(shorter, further, subdirs, filename);
        assert(most == whole.take(most.len() as int));
        assert(part == most.take(part.len() as int));
        assert(whole.take(part.len() as int) == part);
    }
}

/// All boundaries of a search lie in its walk.
proof fn lemma_start_well_formed(
    dirs: Seq<Seq<char>>,
    home: Option<Seq<char>>,
    further: Option<Seq<char>>,
    subdirs: Seq<Seq<char>>,
    filename: Seq<char>,
)
    ensures
        search_start(dirs, home, further, subdirs, filename).well_formed(),
{
}

/// From directory `i` on, the search finds what a walk over the remaining directories finds,
/// and otherwise what lies below the home directory.
proof fn lemma_walk_from(
    dirs: Seq<Seq<char>>,
    home: Option<Seq<char>>,
    further: Option<Seq<char>>,
    subdirs: Seq<Seq<char>>,
    filename: Seq<char>,
    exists_at: spec_fn(Seq<char>) -> bool,
    i: int,
)
    requires
        0 <= i <= dirs.len(),
    ensures
        ({
            let start = search_start(dirs, home, further, subdirs, filename);
            let at = walk_probes(dirs.take(i), further, subdirs, filename).len() as int;
            searching(start.probes, start.globals_at, at).outcome(exists_at) == search_finds(
                dirs.skip(i),
                home,
                further,
                subdirs,
                filename,
                exists_at,
            )
        }),
    decreases dirs.len() - i,
{
    let start = search_start(dirs, home, further, subdirs, filename);
    let probes = start.probes;
    let walk = walk_probes(dirs, further, subdirs, filename);
    let part = walk_probes(dirs.take(i), further, subdirs, filename);
    let at = part.len() as int;
    lemma_start_well_formed(dirs, home, further, subdirs, filename);
    lemma_walk_prefix(dirs, further, subdirs, filename, i);
    let below_home = home_candidates(home, further, subdirs, filename);
    assert forall|k: int| 0 <= k < below_home.len() implies #[trigger] probes[start.globals_at + k]
        == ProbeView::Candidate(below_home[k]) by {
        assert(probes[walk.len() + k] == candidate_probes(below_home)[k]);
    }
    lemma_stretch(probes, start.globals_at, start.globals_at, below_home, exists_at);
    let last = searching(probes, start.globals_at, probes.len() as int);
    assert(last.outcome(exists_at) is None);
    if i == dirs.len() {
        assert(dirs.take(i) == dirs);
        assert(dirs.skip(i).len() == 0);
    } else {
        let dir = dirs[i];
        let here = dir_candidates(dir, further, subdirs, filename);
        let next = dirs.take(i + 1);
        assert(next.drop_last() == dirs.take(i));
        assert(next.last() == dirs[i]);
        lemma_walk_prefix(dirs, further, subdirs, filename, i + 1);
        let longer = walk_probes(next, further, subdirs, filename);
        assert(longer == part + candidate_probes(here).push(
            ProbeView::Boundary(crate::paths::joined(dir, ".git"@)),
        ));
        assert(longer.len() == at + here.len() + 1);
        assert forall|k: int| 0 <= k < longer.len() implies probes[k] == longer[k] by {
            assert(walk.take(longer.len() as int)[k] == longer[k]);
        }
        assert forall|k: int| 0 <= k < here.len() implies #[trigger] probes[at + k]
            == ProbeView::Candidate(here[k]) by {
            assert(longer[at + k] == ProbeView::Candidate(here[k]));
        }
        lemma_stretch(probes, start.globals_at, at, here, exists_at);
        let boundary = at + here.len();
        assert(longer[boundary] == ProbeView::Boundary(crate::paths::joined(dir, ".git"@)));
        let state = searching(probes, start.globals_at, boundary);
        assert(state.well_formed());
        let ends = exists_at(crate::paths::joined(dir, ".git"@));
        assert(state.outcome(exists_at) == state.answered(ends).outcome(exists_at));
        if ends {
            assert(state.answered(true) == searching(probes, start.globals_at, start.globals_at));
        } else {
            assert(state.answered(false) == searching(probes, start.globals_at, boundary + 1));
            lemma_walk_from(dirs, home, further, subdirs, filename, exists_at, i + 1);
            assert(dirs.skip(i).skip(1) == dirs.skip(i + 1));
        }
        assert(dirs.skip(i)[0] == dirs[i]);
    }
}

/// A search whose questions are answered truthfully finds the nearest local definition, and
/// without a local one the first global definition.
pub proof fn law_search_prefers_nearest(
    dirs: Seq<Seq<char>>,
    home: Option<Seq<char>>,
    further: Option<Seq<char>>,
    subdirs: Seq<Seq<char>>,
    filename: Seq<char>,
    exists_at: spec_fn(Seq<char>) -> bool,
)
    ensures
        search_start(dirs, home, further, subdirs, filename).outcome(exists_at) == search_finds(
            dirs,
            home,
            further,
            subdirs,
            filename,
            exists_at,
        ),
{
    lemma_walk_from(dirs, home, further, subdirs, filename, exists_at, 0);
    assert(dirs.take(0).len() == 0);
    assert(dirs.skip(0) == dirs);
}

/// A search through a list finds the first path that exists.
pub proof fn law_list_search(paths: Seq<Seq<char>>, exists_at: spec_fn(Seq<char>) -> bool)
    ensures
        list_start(paths).outcome(exists_at) == first_existing(paths, exists_at),
{
    let start = list_start(paths);
    lemma_stretch(start.probes, start.globals_at, 0, paths, exists_at);
}

/// What a search finds exists.
pub proof fn law_found_exists(
    dirs: Seq<Seq<char>>,
    home: Option<Seq<char>>,
    further: Option<Seq<char>>,
    subdirs: Seq<Seq<char>>,
    filename: Seq<char>,
    exists_at: spec_fn(Seq<char>) -> bool,
)
    ensures
        search_finds(dirs, home, further, subdirs, filename, exists_at) matches Some(path)
            ==> exists_at(path),
{
    lemma_walk_found_exists(dirs, further, subdirs, filename, exists_at);
    lemma_first_existing(home_candidates(home, further, subdirs, filename), exists_at);
}

proof fn lemma_first_existing(
    candidates: Seq<Seq<char>>,
    exists_at: spec_fn(Seq<char>) -> bool,
)
    ensures
        first_existing(candidates, exists_at) matches Some(path) ==> exists_at(path),
    decreases candidates.len(),
{
    if candidates.len() > 0 {
        lemma_first_existing(candidates.skip(1), exists_at);
    }
}

proof fn lemma_walk_found_exists(
    dirs: Seq<Seq<char>>,
    further: Option<Seq<char>>,
    subdirs: Seq<Seq<char>>,
    filename: Seq<char>,
    exists_at: spec_fn(Seq<char>) -> bool,
)
    ensures
        walk_finds(dirs, further, subdirs, filename, exists_at) matches Some(path) ==> exists_at(
            path,
        ),
    decreases dirs.len(),
{
    if dirs.len() > 0 {
        lemma_first_existing(dir_candidates(dirs[0], further, subdirs, filename), exists_at);
        lemma_walk_found_exists(dirs.skip(1), further, subdirs, filename, exists_at);
    }
}

/// A truthful answer does not change what a search will find.
pub proof fn law_answer_keeps_outcome(search: SearchView, exists_at: spec_fn(Seq<char>) -> bool)
    requires
        search.well_formed(),
        !search.is_over(),
    ensures
        search.answered(exists_at(search.probes[search.next].path())).outcome(exists_at)
            == search.outcome(exists_at),
{
}

/// A search that is over has found what it was to find.
pub proof fn law_finished_search(search: SearchView, exists_at: spec_fn(Seq<char>) -> bool)
    requires
        search.well_formed(),
        search.is_over(),
    ensures
        search.outcome(exists_at) == search.found,
{
}

/// Every answer brings a search nearer to its end.
pub proof fn law_search_ends(search: SearchView, exists_there: bool)
    requires
        search.well_formed(),
        !search.is_over(),
    ensures
        search.answered(exists_there).well_formed(),
        search.next < search.answered(exists_there).next <= search.probes.len(),
{
}

/// A local definition of a skill comes before every global one. Among the local ones, and among
/// the global ones, a folder comes before a single file.
pub proof fn law_local_skill_first(
    dirs: Seq<Seq<char>>,
    home: Option<Seq<char>>,
    further: Option<Seq<char>>,
    skill_name: Seq<char>,
    exists_at: spec_fn(Seq<char>) -> bool,
)
    ensures
        ({
            let subdirs = seq!["skills"@];
            let in_folder = skill_name + "/SKILL.md"@;
            let in_file = skill_name + ".md"@;
            let folder = walk_finds(dirs, further, subdirs, in_folder, exists_at);
            let file = walk_finds(dirs, further, subdirs, in_file, exists_at);
            let global_folder = first_existing(
                home_candidates(home, further, subdirs, in_folder),
                exists_at,
            );
            let global_file = first_existing(
                home_candidates(home, further, subdirs, in_file),
                exists_at,
            );
            skill_start(dirs, home, further, skill_name).outcome(exists_at) == if folder is Some {
                folder
            } else if file is Some {
                file
            } else if global_folder is Some {
                global_folder
            } else {
                global_file
            }
        }),
{
    let subdirs = seq!["skills"@];
    let in_folder = skill_name + "/SKILL.md"@;
    let in_file = skill_name + ".md"@;
    law_search_prefers_nearest(dirs, None, further, subdirs, in_folder, exists_at);
    law_search_prefers_nearest(dirs, None, further, subdirs, in_file, exists_at);
    law_list_search(global_skill_places(home, further, skill_name), exists_at);
    lemma_first_of_two(
        home_candidates(home, further, subdirs, in_folder),
        home_candidates(home, further, subdirs, in_file),
        exists_at,
    );
}

/// The first that exists of two lists is that of the first list, if it has one.
proof fn lemma_first_of_two(
    first: Seq<Seq<char>>,
    second: Seq<Seq<char>>,
    exists_at: spec_fn(Seq<char>) -> bool,
)
    ensures
        first_existing(first + second, exists_at) == if first_existing(first, exists_at) is Some {
            first_existing(first, exists_at)
        } else {
            first_existing(second, exists_at)
        },
    decreases first.len(),
{
    if first.len() == 0 {
        assert(first + second == second);
    } else {
        assert((first + second)[0] == first[0]);
        assert((first + second).skip(1) == first.skip(1) + second);
        lemma_first_of_two(first.skip(1), second, exists_at);
    }
}

/// Every answer brings a search for a skill nearer to its end.
pub proof fn law_skill_search_ends(search: SkillSearchView, exists_there: bool)
    requires
        search.well_formed(),
        !search.active().is_over(),
    ensures
        search.answered(exists_there).well_formed(),
        0 <= search.answered(exists_there).remaining() < search.remaining(),
{
    law_search_ends(search.active(), exists_there);
}

/// A truthful answer does not change what a search for a skill will find.
pub proof fn law_skill_answer_keeps_outcome(
    search: SkillSearchView,
    exists_at: spec_fn(Seq<char>) -> bool,
)
    requires
        search.well_formed(),
        !search.active().is_over(),
    ensures
        search.answered(exists_at(search.active().probes[search.active().next].path())).outcome(
            exists_at,
        ) == search.outcome(exists_at),
{
}

/// A search for a skill that is over has found what it was to find.
pub proof fn law_finished_skill_search(
    search: SkillSearchView,
    exists_at: spec_fn(Seq<char>) -> bool,
)
    requires
        search.well_formed(),
        search.active().is_over(),
    ensures
        search.outcome(exists_at) == search.active().found,
{
}

/// Whether the second path is the first with `name` behind it.
spec fn names_file_in(place: Seq<char>, name: Seq<char>, path: Seq<char>) -> bool {
    path == place + name
}

proof fn lemma_file_in_place(base: Seq<char>, name: Seq<char>)
    requires
        !crate::paths::is_absolute(name),
    ensures
        crate::paths::joined(base, name) == crate::paths::joined(base, seq![]) + name,
{
    if base.len() == 0 || base.last() == '/' {
        assert(base + Seq::<char>::empty() + name == base + name);
    } else {
        assert(base.push('/') + Seq::<char>::empty() + name == base.push('/') + name);
    }
}

proof fn lemma_files_in_bases(bases: Seq<Seq<char>>, subdirs: Seq<Seq<char>>, name: Seq<char>)
    requires
        !crate::paths::is_absolute(name),
    ensures
        bases_candidates(bases, subdirs, name).len() == bases_candidates(
            bases,
            subdirs,
            seq![],
        ).len(),
        forall|i: int|
            0 <= i < bases_candidates(bases, subdirs, name).len() ==> names_file_in(
                bases_candidates(bases, subdirs, seq![])[i],
                name,
                #[trigger] bases_candidates(bases, subdirs, name)[i],
            ),
    decreases bases.len(),
{
    if bases.len() > 0 {
        let shorter = bases.drop_last();
        let base = bases.last();
        lemma_files_in_bases(shorter, subdirs, name);
        let paths = bases_candidates(bases, subdirs, name);
        let places = bases_candidates(bases, subdirs, seq![]);
        let earlier = bases_candidates(shorter, subdirs, name);
        let earlier_places = bases_candidates(shorter, subdirs, seq![]);
        let own = base_candidates(base, subdirs, name);
        let own_places = base_candidates(base, subdirs, seq![]);
        assert forall|i: int| 0 <= i < paths.len() implies names_file_in(
            places[i],
            name,
            #[trigger] paths[i],
        ) by {
            if i < earlier.len() {
                assert(paths[i] == earlier[i] && places[i] == earlier_places[i]);
            } else {
                let k = i - earlier.len();
                assert(paths[i] == own[k] && places[i] == own_places[k]);
                if k < subdirs.len() {
                    lemma_file_in_place(crate::paths::joined(base, subdirs[k]), name);
                } else {
                    lemma_file_in_place(base, name);
                }
            }
        }
    }
}

/// Whether the second probes ask about `name` where the first ask about its directory, and about
/// the same ends of the walk.
pub open spec fn ask_in_the_places(
    places: Seq<ProbeView>,
    name: Seq<char>,
    probes: Seq<ProbeView>,
) -> bool {
    &&& probes.len() == places.len()
    &&& forall|i: int|
        0 <= i < probes.len() ==> (match places[i] {
            ProbeView::Candidate(place) => #[trigger] probes[i] == ProbeView::Candidate(
                place + name,
            ),
            ProbeView::Boundary(_) => probes[i] == places[i],
        })
}

proof fn lemma_walk_asks_in_the_places(
    dirs: Seq<Seq<char>>,
    further: Option<Seq<char>>,
    subdirs: Seq<Seq<char>>,
    name: Seq<char>,
)
    requires
        !crate::paths::is_absolute(name),
    ensures
        ask_in_the_places(
            walk_probes(dirs, further, subdirs, seq![]),
            name,
            walk_probes(dirs, further, subdirs, name),
        ),
    decreases dirs.len(),
{
    if dirs.len() > 0 {
        let shorter = dirs.drop_last();
        let dir = dirs.last();
        lemma_walk_asks_in_the_places(shorter, further, subdirs, name);
        lemma_files_in_bases(local_bases(dir, further), subdirs, name);
        let probes = walk_probes(dirs, further, subdirs, name);
        let places = walk_probes(dirs, further, subdirs, seq![]);
        let earlier = walk_probes(shorter, further, subdirs, name);
        let earlier_places = walk_probes(shorter, further, subdirs, seq![]);
        let own = dir_candidates(dir, further, subdirs, name);
        let own_places = dir_candidates(dir, further, subdirs, seq![]);
        assert forall|i: int| 0 <= i < probes.len() implies (match places[i] {
            ProbeView::Candidate(place) => #[trigger] probes[i] == ProbeView::Candidate(
                place + name,
            ),
            ProbeView::Boundary(_) => probes[i] == places[i],
        }) by {
            if i < earlier.len() {
                assert(probes[i] == earlier[i] && places[i] == earlier_places[i]);
            } else if i < earlier.len() + own.len() {
                let k = i - earlier.len();
                assert(names_file_in(own_places[k], name, own[k]));
                assert(probes[i] == ProbeView::Candidate(own[k]));
                assert(places[i] == ProbeView::Candidate(own_places[k]));
            }
        }
    }
}

/// A search for a file asks, question by question, about that file in the directories that the
/// pass through the places goes through. So what a listing of the places shows is what a search
/// may find.
pub proof fn law_search_looks_into_the_places(
    dirs: Seq<Seq<char>>,
    home: Option<Seq<char>>,
    further: Option<Seq<char>>,
    subdirs: Seq<Seq<char>>,
    name: Seq<char>,
)
    requires
        !crate::paths::is_absolute(name),
    ensures
        ask_in_the_places(
            search_start(dirs, home, further, subdirs, seq![]).probes,
            name,
            search_start(dirs, home, further, subdirs, name).probes,
        ),
        search_start(dirs, home, further, subdirs, seq![]).globals_at == search_start(
            dirs,
            home,
            further,
            subdirs,
            name,
        ).globals_at,
{
    lemma_walk_asks_in_the_places(dirs, further, subdirs, name);
    let walk = walk_probes(dirs, further, subdirs, name);
    let walk_places = walk_probes(dirs, further, subdirs, seq![]);
    let probes = search_start(dirs, home, further, subdirs, name).probes;
    let places = search_start(dirs, home, further, subdirs, seq![]).probes;
    let own = home_candidates(home, further, subdirs, name);
    let own_places = home_candidates(home, further, subdirs, seq![]);
    if home is Some {
        lemma_files_in_bases(global_bases(home->0, further), subdirs, name);
    }
    assert forall|i: int| 0 <= i < probes.len() implies (match places[i] {
        ProbeView::Candidate(place) => #[trigger] probes[i] == ProbeView::Candidate(place + name),
        ProbeView::Boundary(_) => probes[i] == places[i],
    }) by {
        if i < walk.len() {
            assert(probes[i] == walk[i] && places[i] == walk_places[i]);
        } else {
            let k = i - walk.len();
            assert(names_file_in(own_places[k], name, own[k]));
            assert(probes[i] == ProbeView::Candidate(own[k]));
            assert(places[i] == ProbeView::Candidate(own_places[k]));
        }
    }
}

/// Definitions are looked for in `.opencode`, in the further directory if one is named, and in
/// `.agents`, in this order; below the home directory in `.config/opencode` first.
pub proof fn law_where_definitions_are(dir: Seq<char>, name: Seq<char>)
    ensures
        local_bases(dir, None) == seq![
            crate::paths::joined(dir, ".opencode"@),
            crate::paths::joined(dir, ".agents"@),
        ],
        local_bases(dir, Some(name)) == seq![
            crate::paths::joined(dir, ".opencode"@),
            crate::paths::joined(dir, name),
            crate::paths::joined(dir, ".agents"@),
        ],
        global_bases(dir, None) == seq![
            crate::paths::joined(crate::paths::joined(dir, ".config"@), "opencode"@),
            crate::paths::joined(dir, ".agents"@),
        ],
        global_bases(dir, Some(name)) == seq![
            crate::paths::joined(crate::paths::joined(dir, ".config"@), "opencode"@),
            crate::paths::joined(dir, name),
            crate::paths::joined(dir, ".agents"@),
        ],
{
}

/// In a base directory a file is looked for in each subdirectory and then in the base itself; in
/// several bases, in one after the other.
pub proof fn law_where_a_file_may_be(
    bases: Seq<Seq<char>>,
    base: Seq<char>,
    subdirs: Seq<Seq<char>>,
    filename: Seq<char>,
    further: Option<Seq<char>>,
)
    ensures
        base_candidates(base, subdirs, filename).len() == subdirs.len() + 1,
        forall|i: int|
            0 <= i < subdirs.len() ==> #[trigger] base_candidates(base, subdirs, filename)[i]
                == crate::paths::joined(crate::paths::joined(base, subdirs[i]), filename),
        base_candidates(base, subdirs, filename)[subdirs.len() as int] == crate::paths::joined(
            base,
            filename,
        ),
        bases_candidates(seq![], subdirs, filename) == Seq::<Seq<char>>::empty(),
        bases_candidates(bases.push(base), subdirs, filename) == bases_candidates(
            bases,
            subdirs,
            filename,
        ) + base_candidates(base, subdirs, filename),
        dir_candidates(base, further, subdirs, filename) == bases_candidates(
            local_bases(base, further),
            subdirs,
            filename,
        ),
        home_candidates(Some(base), further, subdirs, filename) == bases_candidates(
            global_bases(base, further),
            subdirs,
            filename,
        ),
        home_candidates(None, further, subdirs, filename) == Seq::<Seq<char>>::empty(),
{
    assert(bases.push(base).drop_last() == bases);
}

/// The first candidate that exists is one that exists, with none that exists before it; and there
/// is one wherever some candidate exists.
pub proof fn law_first_that_exists(
    candidates: Seq<Seq<char>>,
    exists_at: spec_fn(Seq<char>) -> bool,
)
    ensures
        first_existing(candidates, exists_at) matches Some(path) ==> exists|i: int|
            {
                &&& 0 <= i < candidates.len()
                &&& #[trigger] candidates[i] == path
                &&& exists_at(path)
                &&& forall|j: int| 0 <= j < i ==> !exists_at(#[trigger] candidates[j])
            },
        first_existing(candidates, exists_at) is None <==> forall|i: int|
            0 <= i < candidates.len() ==> !exists_at(#[trigger] candidates[i]),
    decreases candidates.len(),
{
    if candidates.len() > 0 {
        let rest = candidates.skip(1);
        law_first_that_exists(rest, exists_at);
        if !exists_at(candidates[0]) {
            if first_existing(candidates, exists_at) is Some {
                let path = first_existing(candidates, exists_at)->0;
                let i = choose|i: int|
                    {
                        &&& 0 <= i < rest.len()
                        &&& #[trigger] rest[i] == path
                        &&& exists_at(path)
                        &&& forall|j: int| 0 <= j < i ==> !exists_at(#[trigger] rest[j])
                    };
                assert(candidates[i + 1] == path);
                assert forall|j: int| 0 <= j < i + 1 implies !exists_at(
                    #[trigger] candidates[j],
                ) by {
                    if j > 0 {
                        assert(rest[j - 1] == candidates[j]);
                    }
                }
            }
            if forall|i: int| 0 <= i < candidates.len() ==> !exists_at(#[trigger] candidates[i]) {
                assert forall|i: int| 0 <= i < rest.len() implies !exists_at(
                    #[trigger] rest[i],
                ) by {
                    assert(candidates[i + 1] == rest[i]);
                }
            }
            if first_existing(candidates, exists_at) is None {
                assert forall|i: int| 0 <= i < candidates.len() implies !exists_at(
                    #[trigger] candidates[i],
                ) by {
                    if i > 0 {
                        assert(rest[i - 1] == candidates[i]);
                    }
                }
            }
        }
    }
}

/// A walk takes the first file of the first directory that has one. It ends with the directory
/// that holds `.git`. Only where it finds nothing does a search go on below the home directory.
pub proof fn law_how_the_walk_goes(
    dir: Seq<char>,
    dirs: Seq<Seq<char>>,
    home: Option<Seq<char>>,
    further: Option<Seq<char>>,
    subdirs: Seq<Seq<char>>,
    filename: Seq<char>,
    exists_at: spec_fn(Seq<char>) -> bool,
)
    ensures
        walk_finds(seq![], further, subdirs, filename, exists_at) is None,
        walk_finds(seq![dir] + dirs, further, subdirs, filename, exists_at) == {
            let here = first_existing(
                dir_candidates(dir, further, subdirs, filename),
                exists_at,
            );
            if here is Some {
                here
            } else if exists_at(crate::paths::joined(dir, ".git"@)) {
                None
            } else {
                walk_finds(dirs, further, subdirs, filename, exists_at)
            }
        },
        search_finds(dirs, home, further, subdirs, filename, exists_at) == {
            let local = walk_finds(dirs, further, subdirs, filename, exists_at);
            if local is Some {
                local
            } else {
                first_existing(home_candidates(home, further, subdirs, filename), exists_at)
            }
        },
{
    assert((seq![dir] + dirs).skip(1) == dirs);
}

/// The questions of a search: about every place in the directories of the walk, with one about
/// `.git` after each directory, and then about every place below the home directory.
pub proof fn law_questions_of_a_search(
    dirs: Seq<Seq<char>>,
    dir: Seq<char>,
    home: Option<Seq<char>>,
    further: Option<Seq<char>>,
    subdirs: Seq<Seq<char>>,
    filename: Seq<char>,
)
    ensures
        walk_probes(seq![], further, subdirs, filename) == Seq::<ProbeView>::empty(),
        walk_probes(dirs.push(dir), further, subdirs, filename) == walk_probes(
            dirs,
            further,
            subdirs,
            filename,
        ) + Seq::new(
            dir_candidates(dir, further, subdirs, filename).len(),
            |i: int|
                ProbeView::Candidate(dir_candidates(dir, further, subdirs, filename)[i]),
        ) + seq![ProbeView::Boundary(crate::paths::joined(dir, ".git"@))],
        search_start(dirs, home, further, subdirs, filename).probes == walk_probes(
            dirs,
            further,
            subdirs,
            filename,
        ) + Seq::new(
            home_candidates(home, further, subdirs, filename).len(),
            |i: int|
                ProbeView::Candidate(home_candidates(home, further, subdirs, filename)[i]),
        ),
        search_start(dirs, home, further, subdirs, filename).globals_at == walk_probes(
            dirs,
            further,
            subdirs,
            filename,
        ).len(),
        search_start(dirs, home, further, subdirs, filename).next == 0,
        search_start(dirs, home, further, subdirs, filename).found is None,
{
    assert(dirs.push(dir).drop_last() == dirs);
}

/// What an answer does: a file that is there is found and ends the search; an end of the walk
/// that is there leads on below the home directory; anything else leads to the next question.
pub proof fn law_what_an_answer_does(search: SearchView, exists_there: bool, path: Seq<char>)
    requires
        0 <= search.next < search.probes.len(),
    ensures
        search.answered(exists_there).probes == search.probes,
        search.answered(exists_there).globals_at == search.globals_at,
        exists_there && search.probes[search.next] == ProbeView::Candidate(path) ==> {
            &&& search.answered(exists_there).found == Some(path)
            &&& search.answered(exists_there).is_over()
        },
        exists_there && search.probes[search.next] == ProbeView::Boundary(path) ==> {
            &&& search.answered(exists_there).found == search.found
            &&& search.answered(exists_there).next == search.globals_at
        },
        !exists_there ==> {
            &&& search.answered(exists_there).found == search.found
            &&& search.answered(exists_there).next == search.next + 1
        },
        !search.is_over(),
        ProbeView::Candidate(path).path() == path,
        ProbeView::Boundary(path).path() == path,
{
}

/// Where a configuration is looked for, and what is said of a definition that was not found.
pub proof fn law_texts_of_the_search(home: Seq<char>, name: Seq<char>)
    ensures
        config_locations(None) == seq!["airun.toml"@, ".airun.toml"@, ".config/airun.toml"@],
        config_locations(Some(home)) == seq![
            "airun.toml"@,
            ".airun.toml"@,
            ".config/airun.toml"@,
            crate::paths::joined(home, ".config/airun/config.toml"@),
        ],
        not_found_ending(Some(name)) == "' not found in .opencode/, "@ + name
            + "/, or .agents/ directories"@,
        not_found_ending(None) == "' not found in .opencode/ or .agents/ directories"@,
{
    let local = seq!["airun.toml"@, ".airun.toml"@, ".config/airun.toml"@];
    let global = crate::paths::joined(home, ".config/airun/config.toml"@);
    assert(local.push(global) == seq![
        "airun.toml"@,
        ".airun.toml"@,
        ".config/airun.toml"@,
        global,
    ]);
}

} // verus!
