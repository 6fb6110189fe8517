//! Which engine runs the wasm program.
//!
//! An explicit request is either a path, which is used verbatim, or a short name,
//! which is looked up in the search directories. Without a request the known engine
//! names are looked up one after the other. What holds an executable is for the host
//! to say: a search names one candidate at a time and is told the answer. How names and
//! directories make paths goes by the host's path rules.

use crate::engine::{
    classify_engine, engine_kind, engine_names, is_path_like, known_engines, lemma_engine_names,
    lemma_path_like_requests, looks_like_path, EngineKind,
};
use crate::host_paths::{HostPaths, UnixPaths};
use crate::text::{each_view, optional_view, str_bytes};
use vstd::prelude::*;
use vstd::utf8::encode_utf8;

verus! {

/// Why no engine was found.
#[derive(Debug, Clone, Copy, PartialEq, Eq, Structural)]
pub enum ResolveError {
    /// The requested path is not an executable file.
    NotExecutable,
    /// The requested name is in none of the search directories.
    NotFound,
    /// None of the known engines is in any of the search directories.
    NoEngine,
}

/// The places for an engine called `name`, one in each directory.
pub open spec fn candidates_in<H: HostPaths>(
    host: H,
    dirs: Seq<Seq<u8>>,
    name: Seq<char>,
) -> Seq<Seq<u8>> {
    dirs.map_values(|dir: Seq<u8>| host.join_spec(dir, encode_utf8(name)))
}

/// The places for engines of several names: all those for the first name, then all
/// those for the second, and so on.
pub open spec fn candidates_for<H: HostPaths>(
    host: H,
    dirs: Seq<Seq<u8>>,
    names: Seq<Seq<char>>,
) -> Seq<Seq<u8>>
    decreases names.len(),
{
    if names.len() == 0 {
        Seq::empty()
    } else {
        candidates_for(host, dirs, names.drop_last()) + candidates_in(host, dirs, names.last())
    }
}

/// Lists the places to look for `name`, in the order of the directories.
pub fn find_in<H: HostPaths>(host: &H, dirs: &Vec<Vec<u8>>, name: &str) -> (res: Vec<Vec<u8>>)
    ensures
        each_view(res@) == candidates_in(*host, each_view(dirs@), name@),
        res@.len() == dirs@.len(),
        forall|i: int|
            0 <= i < dirs@.len() ==> (#[trigger] res@[i])@ == host.join_spec(
                dirs@[i]@,
                encode_utf8(name@),
            ),
{
    let mut res: Vec<Vec<u8>> = Vec::new();
    for i in 0..dirs.len()
        invariant
            res@.len() == i,
            forall|j: int|
                0 <= j < i ==> (#[trigger] res@[j])@ == host.join_spec(
                    dirs@[j]@,
                    encode_utf8(name@),
                ),
    {
        res.push(host.join(dirs[i].as_slice(), name.as_bytes()));
    }
    assert(each_view(res@) =~= candidates_in(*host, each_view(dirs@), name@));
    res
}

/// What a search asks of the host, or how it ended.
pub enum SearchStep<P> {
    /// Find out whether this path is an executable file.
    Probe(P),
    /// This is the engine.
    Resolved(P, EngineKind),
    /// There is no engine.
    Failed(ResolveError),
}

impl<P: View> View for SearchStep<P> {
    type V = SearchStep<P::V>;

    open spec fn view(&self) -> SearchStep<P::V> {
        match *self {
            SearchStep::Probe(path) => SearchStep::Probe(path@),
            SearchStep::Resolved(path, kind) => SearchStep::Resolved(path@, kind),
            SearchStep::Failed(error) => SearchStep::Failed(error),
        }
    }
}

/// The state of a search: the candidates before `next` were turned down, and where
/// one was accepted that is the one at `next`.
pub struct SearchState {
    pub candidates: Seq<Seq<u8>>,
    pub next: int,
    pub found: bool,
    /// The error, should every candidate be turned down.
    pub failure: ResolveError,
}

impl SearchState {
    /// A search with nothing probed yet.
    pub open spec fn start(candidates: Seq<Seq<u8>>, failure: ResolveError) -> SearchState {
        SearchState { candidates, next: 0, found: false, failure }
    }

    /// A probe is pending.
    pub open spec fn is_probing(self) -> bool {
        self.next < self.candidates.len() && !self.found
    }

    /// What comes next.
    pub open spec fn step<H: HostPaths>(self, host: H) -> SearchStep<Seq<u8>> {
        if self.next >= self.candidates.len() {
            SearchStep::Failed(self.failure)
        } else if self.found {
            SearchStep::Resolved(
                self.candidates[self.next],
                engine_kind(host, self.candidates[self.next]),
            )
        } else {
            SearchStep::Probe(self.candidates[self.next])
        }
    }

    /// The state after the pending probe was answered.
    pub open spec fn observed(self, executable: bool) -> SearchState {
        if executable {
            SearchState { found: true, ..self }
        } else {
            SearchState { next: self.next + 1, ..self }
        }
    }

    /// How the search ends on a host that has an executable file at just the paths
    /// that satisfy `executable`.
    pub open spec fn outcome<H: HostPaths>(
        self,
        host: H,
        executable: spec_fn(Seq<u8>) -> bool,
    ) -> SearchStep<Seq<u8>>
        decreases self.candidates.len() - self.next, (if self.found { 0int } else { 1 }),
    {
        match self.step(host) {
            SearchStep::Probe(path) => self.observed(executable(path)).outcome(host, executable),
            done => done,
        }
    }
}

/// A search for an engine, one probe at a time.
pub struct EngineSearch {
    candidates: Vec<Vec<u8>>,
    next: usize,
    found: bool,
    failure: ResolveError,
}

impl View for EngineSearch {
    type V = SearchState;

    closed spec fn view(&self) -> SearchState {
        SearchState {
            candidates: each_view(self.candidates@),
            next: self.next as int,
            found: self.found,
            failure: self.failure,
        }
    }
}

impl EngineSearch {
    /// Starts a search through `candidates`, in that order.
    pub fn new(candidates: Vec<Vec<u8>>, failure: ResolveError) -> (res: EngineSearch)
        ensures
            res@ == SearchState::start(each_view(candidates@), failure),
            res@.candidates.len() == candidates@.len(),
            forall|i: int|
                0 <= i < candidates@.len() ==> #[trigger] res@.candidates[i] == candidates@[i]@,
            res@.next == 0,
            !res@.found,
            res@.failure == failure,
    {
        EngineSearch { candidates, next: 0, found: false, failure }
    }

    /// What the search asks for next, or how it ended.
    pub fn step<H: HostPaths>(&self, host: &H) -> (res: SearchStep<&[u8]>)
        ensures
            res@ == self@.step(*host),
            match res {
                SearchStep::Probe(path) => {
                    &&& 0 <= self@.next < self@.candidates.len()
                    &&& !self@.found
                    &&& path@ == self@.candidates[self@.next]
                },
                SearchStep::Resolved(path, kind) => {
                    &&& 0 <= self@.next < self@.candidates.len()
                    &&& self@.found
                    &&& path@ == self@.candidates[self@.next]
                    &&& kind == engine_kind(*host, path@)
                },
                SearchStep::Failed(error) => {
                    &&& self@.next >= self@.candidates.len()
                    &&& error == self@.failure
                },
            },
    {
        if self.next >= self.candidates.len() {
            SearchStep::Failed(self.failure)
        } else {
            let path = self.candidates[self.next].as_slice();
            if self.found {
                SearchStep::Resolved(path, classify_engine(host, path))
            } else {
                SearchStep::Probe(path)
            }
        }
    }

    /// Tells the search whether the path that it asked for is an executable file.
    pub fn observe(&mut self, executable: bool)
        requires
            old(self)@.is_probing(),
        ensures
            final(self)@ == old(self)@.observed(executable),
            final(self)@.candidates == old(self)@.candidates,
            final(self)@.failure == old(self)@.failure,
            final(self)@.found == executable,
            final(self)@.next == if executable {
                old(self)@.next
            } else {
                old(self)@.next + 1
            },
    {
        if executable {
            self.found = true;
        } else {
            assert(self.next < self.candidates.len());
            self.next = self.next + 1;
        }
    }
}

/// The search for an explicitly requested engine.
pub open spec fn requested_search<H: HostPaths>(
    host: H,
    request: Seq<char>,
    dirs: Seq<Seq<u8>>,
) -> SearchState {
    if is_path_like(host, request) {
        SearchState::start(seq![encode_utf8(request)], ResolveError::NotExecutable)
    } else {
        SearchState::start(candidates_in(host, dirs, request), ResolveError::NotFound)
    }
}

/// The search for an engine: the requested one, or else any known one.
pub open spec fn engine_search<H: HostPaths>(
    host: H,
    request: Option<Seq<char>>,
    dirs: Seq<Seq<u8>>,
) -> SearchState {
    match request {
        Some(request) => requested_search(host, request, dirs),
        None => SearchState::start(
            candidates_for(host, dirs, engine_names()),
            ResolveError::NoEngine,
        ),
    }
}

/// Resolves an explicitly requested engine. A path is used verbatim, a short name is
/// looked up in the search directories.
pub fn resolve_named_or_path<H: HostPaths>(
    host: &H,
    raw: &str,
    search_dirs: &Vec<Vec<u8>>,
) -> (res: EngineSearch)
    ensures
        res@ == requested_search(*host, raw@, each_view(search_dirs@)),
        ({
            ||| exists|i: int|
                0 <= i < raw@.len() && (#[trigger] raw@[i] == '/' || raw@[i]
                    == host.separator_spec())
            ||| raw@.len() > 0 && raw@[0] == '.'
        }) ==> {
            &&& res@.candidates == seq![encode_utf8(raw@)]
            &&& res@.failure == ResolveError::NotExecutable
        },
        ({
            &&& forall|i: int|
                0 <= i < raw@.len() ==> #[trigger] raw@[i] != '/' && raw@[i]
                    != host.separator_spec()
            &&& raw@.len() == 0 || raw@[0] != '.'
        }) ==> {
            &&& res@.candidates.len() == search_dirs@.len()
            &&& forall|i: int|
                0 <= i < search_dirs@.len() ==> #[trigger] res@.candidates[i] == host.join_spec(
                    search_dirs@[i]@,
                    encode_utf8(raw@),
                )
            &&& res@.failure == ResolveError::NotFound
        },
        res@.next == 0,
        !res@.found,
{
    if looks_like_path(host, raw) {
        let candidates = vec![str_bytes(raw)];
        assert(each_view(candidates@) =~= seq![encode_utf8(raw@)]);
        EngineSearch::new(candidates, ResolveError::NotExecutable)
    } else {
        EngineSearch::new(find_in(host, search_dirs, raw), ResolveError::NotFound)
    }
}

/// Resolves the engine to run: the requested one where there is a request, else the
/// first known one that the search directories hold.
pub fn resolve_engine<H: HostPaths>(
    host: &H,
    requested: Option<&str>,
    search_dirs: &Vec<Vec<u8>>,
) -> (res: EngineSearch)
    ensures
        res@ == engine_search(*host, optional_view(requested), each_view(search_dirs@)),
        requested matches Some(raw) ==> ({
            ||| exists|i: int|
                0 <= i < raw@.len() && (#[trigger] raw@[i] == '/' || raw@[i]
                    == host.separator_spec())
            ||| raw@.len() > 0 && raw@[0] == '.'
        }) ==> {
            &&& res@.candidates == seq![encode_utf8(raw@)]
            &&& res@.failure == ResolveError::NotExecutable
        },
        requested matches Some(raw) ==> ({
            &&& forall|i: int|
                0 <= i < raw@.len() ==> #[trigger] raw@[i] != '/' && raw@[i]
                    != host.separator_spec()
            &&& raw@.len() == 0 || raw@[0] != '.'
        }) ==> {
            &&& res@.candidates.len() == search_dirs@.len()
            &&& forall|i: int|
                0 <= i < search_dirs@.len() ==> #[trigger] res@.candidates[i] == host.join_spec(
                    search_dirs@[i]@,
                    encode_utf8(raw@),
                )
            &&& res@.failure == ResolveError::NotFound
        },
        requested is None ==> {
            &&& res@.candidates.len() == 6 * search_dirs@.len()
            &&& res@.failure == ResolveError::NoEngine
        },
        res@.next == 0,
        !res@.found,
{
    if let Some(raw) = requested {
        return resolve_named_or_path(host, raw, search_dirs);
    }
    let names = known_engines();
    let ghost dirs = each_view(search_dirs@);
    let mut candidates: Vec<Vec<u8>> = Vec::new();
    assert(each_view(candidates@) =~= candidates_for(*host, dirs, engine_names().take(0)));
    for i in 0..names.len()
        invariant
            each_view(names@) == engine_names(),
            dirs == each_view(search_dirs@),
            each_view(candidates@) == candidates_for(*host, dirs, engine_names().take(i as int)),
    {
        let ghost before = candidates@;
        let mut more = find_in(host, search_dirs, names[i]);
        let ghost added = more@;
        candidates.append(&mut more);
        proof {
            assert(engine_names()[i as int] == names@[i as int]@);
            assert(engine_names().take(i + 1).drop_last() =~= engine_names().take(i as int));
            assert(each_view(candidates@) =~= each_view(before) + each_view(added));
        }
    }
    proof {
        assert(engine_names().take(names@.len() as int) =~= engine_names());
        lemma_candidates_for_len(*host, dirs, engine_names());
    }
    EngineSearch::new(candidates, ResolveError::NoEngine)
}

/// The directory into which `jsvu` installs engines.
pub open spec fn jsvu_dir<H: HostPaths>(host: H, home: Seq<u8>) -> Seq<u8> {
    host.join_spec(host.join_spec(home, encode_utf8(".jsvu"@)), encode_utf8("bin"@))
}

/// A list of directories holds `dir`, in whatever spelling.
pub open spec fn lists_dir<H: HostPaths>(host: H, dirs: Seq<Seq<u8>>, dir: Seq<u8>) -> bool {
    exists|i: int| 0 <= i < dirs.len() && host.same_path_spec(#[trigger] dirs[i], dir)
}

/// The search directories: those of `$PATH`, then the `jsvu` directory where there is
/// a home directory and where it is not among them yet.
pub open spec fn search_dirs<H: HostPaths>(
    host: H,
    path_dirs: Seq<Seq<u8>>,
    home: Option<Seq<u8>>,
) -> Seq<Seq<u8>> {
    match home {
        Some(home) => if lists_dir(host, path_dirs, jsvu_dir(host, home)) {
            path_dirs
        } else {
            path_dirs.push(jsvu_dir(host, home))
        },
        None => path_dirs,
    }
}

/// The directory into which `jsvu` installs engines, given the home directory.
pub fn jsvu_bin_dir<H: HostPaths>(host: &H, home: Option<&[u8]>) -> (res: Option<Vec<u8>>)
    ensures
        optional_view(res) == match home {
            Some(home) => Some(jsvu_dir(*host, home@)),
            None => None,
        },
        home is None <==> res is None,
        home matches Some(home) ==> res->0@ == host.join_spec(
            host.join_spec(home@, encode_utf8(".jsvu"@)),
            encode_utf8("bin"@),
        ),
{
    match home {
        Some(home) => {
            let jsvu = host.join(home, ".jsvu".as_bytes());
            Some(host.join(jsvu.as_slice(), "bin".as_bytes()))
        },
        None => None,
    }
}

/// The directories to search, given those of `$PATH` and the home directory.
pub fn engine_search_dirs<H: HostPaths>(
    host: &H,
    path_dirs: Vec<Vec<u8>>,
    home: Option<&[u8]>,
) -> (res: Vec<Vec<u8>>)
    ensures
        each_view(res@) == search_dirs(*host, each_view(path_dirs@), optional_view(home)),
        home is None ==> res@ == path_dirs@,
        home matches Some(home) ==> ({
            let jsvu = host.join_spec(
                host.join_spec(home@, encode_utf8(".jsvu"@)),
                encode_utf8("bin"@),
            );
            if exists|i: int|
                0 <= i < path_dirs@.len() && host.same_path_spec(
                    (#[trigger] path_dirs@[i])@,
                    jsvu,
                ) {
                res@ == path_dirs@
            } else {
                &&& res@.len() == path_dirs@.len() + 1
                &&& forall|i: int| 0 <= i < path_dirs@.len() ==> #[trigger] res@[i] == path_dirs@[i]
                &&& res@[path_dirs@.len() as int]@ == jsvu
            }
        }),
{
    let mut dirs = path_dirs;
    let ghost paths = each_view(path_dirs@);
    if let Some(jsvu) = jsvu_bin_dir(host, home) {
        for i in 0..dirs.len()
            invariant
                dirs == path_dirs,
                paths == each_view(path_dirs@),
                home is Some,
                jsvu@ == jsvu_dir(*host, home->0@),
                forall|j: int| 0 <= j < i ==> !host.same_path_spec(#[trigger] paths[j], jsvu@),
                forall|j: int|
                    0 <= j < i ==> !host.same_path_spec((#[trigger] path_dirs@[j])@, jsvu@),
        {
            if host.same_path(dirs[i].as_slice(), jsvu.as_slice()) {
                assert(host.same_path_spec(paths[i as int], jsvu@));
                assert(host.same_path_spec(path_dirs@[i as int]@, jsvu@));
                return dirs;
            }
        }
        dirs.push(jsvu);
        assert(each_view(dirs@) =~= paths.push(jsvu@));
    }
    dirs
}

/// The first of the candidates that is an executable file is the one at `i`.
pub open spec fn is_first_executable(
    candidates: Seq<Seq<u8>>,
    executable: spec_fn(Seq<u8>) -> bool,
    i: int,
) -> bool {
    &&& 0 <= i < candidates.len()
    &&& executable(candidates[i])
    &&& forall|j: int| 0 <= j < i ==> !executable(#[trigger] candidates[j])
}

proof fn lemma_outcome_from<H: HostPaths>(
    host: H,
    state: SearchState,
    executable: spec_fn(Seq<u8>) -> bool,
)
    requires
        0 <= state.next,
        !state.found,
        forall|j: int| 0 <= j < state.next ==> !executable(#[trigger] state.candidates[j]),
    ensures
        match state.outcome(host, executable) {
            SearchStep::Probe(_) => false,
            SearchStep::Resolved(path, kind) => {
                &&& kind == engine_kind(host, path)
                &&& exists|i: int| #[trigger]
                    is_first_executable(state.candidates, executable, i) && path
                        == state.candidates[i]
            },
            SearchStep::Failed(error) => {
                &&& error == state.failure
                &&& forall|j: int|
                    0 <= j < state.candidates.len() ==> !executable(#[trigger] state.candidates[j])
            },
        },
    decreases state.candidates.len() - state.next,
{
    if state.next < state.candidates.len() {
        let path = state.candidates[state.next];
        let then = state.observed(executable(path));
        if executable(path) {
            assert(then.outcome(host, executable) == then.step(host));
            assert(is_first_executable(state.candidates, executable, state.next));
        } else {
            lemma_outcome_from(host, then, executable);
        }
    }
}

/// A search ends with the first candidate that is an executable file, classified by
/// its path. It fails where there is none, and only there.
pub proof fn lemma_first_executable_wins<H: HostPaths>(
    host: H,
    candidates: Seq<Seq<u8>>,
    failure: ResolveError,
    executable: spec_fn(Seq<u8>) -> bool,
)
    ensures
        match SearchState::start(candidates, failure).outcome(host, executable) {
            SearchStep::Probe(_) => false,
            SearchStep::Resolved(path, kind) => {
                &&& kind == engine_kind(host, path)
                &&& exists|i: int| #[trigger]
                    is_first_executable(candidates, executable, i) && path == candidates[i]
            },
            SearchStep::Failed(error) => {
                &&& error == failure
                &&& forall|j: int|
                    0 <= j < candidates.len() ==> !executable(#[trigger] candidates[j])
            },
        },
{
    lemma_outcome_from(host, SearchState::start(candidates, failure), executable);
}

/// A search asks for one candidate at a time. A candidate that is turned down is
/// followed by the next one, and one that is accepted by the engine's being found: no
/// candidate is passed over, and none is asked for twice.
pub proof fn lemma_search_goes_on<H: HostPaths>(host: H, state: SearchState)
    ensures
        state.is_probing() <==> state.next < state.candidates.len() && !state.found,
        state.step(host) == (if state.next >= state.candidates.len() {
            SearchStep::Failed(state.failure)
        } else if state.found {
            SearchStep::Resolved(
                state.candidates[state.next],
                engine_kind(host, state.candidates[state.next]),
            )
        } else {
            SearchStep::Probe(state.candidates[state.next])
        }),
        state.observed(true) == (SearchState {
            candidates: state.candidates,
            next: state.next,
            found: true,
            failure: state.failure,
        }),
        state.observed(false) == (SearchState {
            candidates: state.candidates,
            next: state.next + 1,
            found: state.found,
            failure: state.failure,
        }),
{
}

/// Of candidates of which the one at `i` is an executable file and none before it is,
/// the one at `i` is the engine, whatever comes behind it.
pub proof fn lemma_search_takes<H: HostPaths>(
    host: H,
    candidates: Seq<Seq<u8>>,
    failure: ResolveError,
    executable: spec_fn(Seq<u8>) -> bool,
    i: int,
)
    requires
        0 <= i < candidates.len(),
        executable(candidates[i]),
        forall|j: int| 0 <= j < i ==> !executable(#[trigger] candidates[j]),
    ensures
        SearchState::start(candidates, failure).outcome(host, executable) == SearchStep::Resolved(
            candidates[i],
            engine_kind(host, candidates[i]),
        ),
{
    lemma_first_executable_wins(host, candidates, failure, executable);
    match SearchState::start(candidates, failure).outcome(host, executable) {
        SearchStep::Resolved(path, kind) => {
            let first = choose|first: int| #[trigger]
                is_first_executable(candidates, executable, first) && path == candidates[first];
            assert(first == i);
        },
        _ => {},
    }
}

/// Where no candidate is an executable file, the search fails with the error that it was
/// given.
pub proof fn lemma_search_fails<H: HostPaths>(
    host: H,
    candidates: Seq<Seq<u8>>,
    failure: ResolveError,
    executable: spec_fn(Seq<u8>) -> bool,
)
    requires
        forall|j: int| 0 <= j < candidates.len() ==> !executable(#[trigger] candidates[j]),
    ensures
        SearchState::start(candidates, failure).outcome(host, executable) == SearchStep::<
            Seq<u8>,
        >::Failed(failure),
{
    lemma_first_executable_wins(host, candidates, failure, executable);
}

/// A request with a slash or the host's separator at any place, or with a dot at the
/// front, has just one candidate: the request itself.
pub proof fn lemma_path_request_candidates<H: HostPaths>(
    host: H,
    request: Seq<char>,
    dirs: Seq<Seq<u8>>,
)
    requires
        ({
            ||| exists|i: int|
                0 <= i < request.len() && (#[trigger] request[i] == '/' || request[i]
                    == host.separator_spec())
            ||| request.len() > 0 && request[0] == '.'
        }),
    ensures
        engine_search(host, Some(request), dirs) == (SearchState {
            candidates: seq![encode_utf8(request)],
            next: 0,
            found: false,
            failure: ResolveError::NotExecutable,
        }),
{
    lemma_path_like_requests(host, request);
}

/// Any other request has one candidate for each directory: the `i`-th is the request
/// joined to the `i`-th directory.
pub proof fn lemma_name_request_candidates<H: HostPaths>(
    host: H,
    request: Seq<char>,
    dirs: Seq<Seq<u8>>,
)
    requires
        forall|i: int|
            0 <= i < request.len() ==> #[trigger] request[i] != '/' && request[i]
                != host.separator_spec(),
        request.len() == 0 || request[0] != '.',
    ensures
        ({
            let search = engine_search(host, Some(request), dirs);
            &&& search.candidates.len() == dirs.len()
            &&& forall|i: int|
                0 <= i < dirs.len() ==> #[trigger] search.candidates[i] == host.join_spec(
                    dirs[i],
                    encode_utf8(request),
                )
            &&& search.next == 0
            &&& !search.found
            &&& search.failure == ResolveError::NotFound
        }),
{
    lemma_path_like_requests(host, request);
}

/// Without a request there is one candidate for each known name and directory: first the
/// first name in each directory, then the second name in each, and so on.
pub proof fn lemma_auto_candidates<H: HostPaths>(host: H, dirs: Seq<Seq<u8>>, i: int)
    requires
        0 <= i < dirs.len(),
    ensures
        ({
            let search = engine_search(host, None, dirs);
            let d = dirs.len() as int;
            &&& search.candidates.len() == 6 * d
            &&& search.candidates[i] == host.join_spec(dirs[i], encode_utf8("wasmtime"@))
            &&& search.candidates[d + i] == host.join_spec(dirs[i], encode_utf8("d8"@))
            &&& search.candidates[2 * d + i] == host.join_spec(dirs[i], encode_utf8("v8"@))
            &&& search.candidates[3 * d + i] == host.join_spec(dirs[i], encode_utf8("sm"@))
            &&& search.candidates[4 * d + i] == host.join_spec(
                dirs[i],
                encode_utf8("spidermonkey"@),
            )
            &&& search.candidates[5 * d + i] == host.join_spec(dirs[i], encode_utf8("js"@))
            &&& search.next == 0
            &&& !search.found
            &&& search.failure == ResolveError::NoEngine
        }),
{
    let names = engine_names();
    lemma_engine_names();
    lemma_candidates_for_len(host, dirs, names);
    lemma_candidate_at(host, dirs, names, 0, i);
    lemma_candidate_at(host, dirs, names, 1, i);
    lemma_candidate_at(host, dirs, names, 2, i);
    lemma_candidate_at(host, dirs, names, 3, i);
    lemma_candidate_at(host, dirs, names, 4, i);
    lemma_candidate_at(host, dirs, names, 5, i);
}

/// A requested path is used verbatim or not at all: no directory is searched.
pub proof fn lemma_requested_path_is_verbatim<H: HostPaths>(
    host: H,
    request: Seq<char>,
    dirs: Seq<Seq<u8>>,
    executable: spec_fn(Seq<u8>) -> bool,
)
    requires
        is_path_like(host, request),
    ensures
        engine_search(host, Some(request), dirs).outcome(host, executable) == if executable(
            encode_utf8(request),
        ) {
            SearchStep::Resolved(encode_utf8(request), engine_kind(host, encode_utf8(request)))
        } else {
            SearchStep::Failed(ResolveError::NotExecutable)
        },
{
    let candidates = seq![encode_utf8(request)];
    lemma_first_executable_wins(host, candidates, ResolveError::NotExecutable, executable);
    assert(candidates[0] == encode_utf8(request));
}

/// Where an engine called `name` would be in the `i`-th directory.
pub open spec fn place<H: HostPaths>(
    host: H,
    dirs: Seq<Seq<u8>>,
    i: int,
    name: Seq<char>,
) -> Seq<u8> {
    host.join_spec(dirs[i], encode_utf8(name))
}

/// A requested name is looked up in the directories and the first hit is taken. Where
/// there is none the search fails: it does not fall back to another engine.
pub proof fn lemma_requested_name_is_looked_up<H: HostPaths>(
    host: H,
    request: Seq<char>,
    dirs: Seq<Seq<u8>>,
    executable: spec_fn(Seq<u8>) -> bool,
)
    requires
        !is_path_like(host, request),
    ensures
        match engine_search(host, Some(request), dirs).outcome(host, executable) {
            SearchStep::Probe(_) => false,
            SearchStep::Resolved(path, kind) => {
                &&& kind == engine_kind(host, path)
                &&& executable(path)
                &&& exists|i: int|
                    {
                        &&& 0 <= i < dirs.len()
                        &&& path == #[trigger] place(host, dirs, i, request)
                        &&& forall|j: int|
                            0 <= j < i ==> !executable(#[trigger] place(host, dirs, j, request))
                    }
            },
            SearchStep::Failed(error) => {
                &&& error == ResolveError::NotFound
                &&& forall|j: int|
                    0 <= j < dirs.len() ==> !executable(#[trigger] place(host, dirs, j, request))
            },
        },
{
    let candidates = candidates_in(host, dirs, request);
    lemma_first_executable_wins(host, candidates, ResolveError::NotFound, executable);
    assert forall|j: int| 0 <= j < dirs.len() implies #[trigger] place(host, dirs, j, request)
        == candidates[j] by {}
    match engine_search(host, Some(request), dirs).outcome(host, executable) {
        SearchStep::Resolved(path, kind) => {
            let i = choose|i: int| #[trigger]
                is_first_executable(candidates, executable, i) && path == candidates[i];
            assert(path == place(host, dirs, i, request));
            assert forall|j: int| 0 <= j < i implies !executable(
                #[trigger] place(host, dirs, j, request),
            ) by {
                assert(!executable(candidates[j]));
            }
        },
        _ => {},
    }
}

proof fn lemma_candidates_for_len<H: HostPaths>(host: H, dirs: Seq<Seq<u8>>, names: Seq<Seq<char>>)
    ensures
        candidates_for(host, dirs, names).len() == names.len() * dirs.len(),
    decreases names.len(),
{
    if names.len() > 0 {
        lemma_candidates_for_len(host, dirs, names.drop_last());
        assert((names.len() - 1) * dirs.len() + dirs.len() == names.len() * dirs.len())
            by (nonlinear_arith);
    }
}

/// Where among the candidates the place for the `k`-th name in the `i`-th directory
/// stands.
proof fn lemma_candidate_at<H: HostPaths>(
    host: H,
    dirs: Seq<Seq<u8>>,
    names: Seq<Seq<char>>,
    k: int,
    i: int,
)
    requires
        0 <= k < names.len(),
        0 <= i < dirs.len(),
    ensures
        0 <= k * dirs.len() + i < candidates_for(host, dirs, names).len(),
        candidates_for(host, dirs, names)[k * dirs.len() + i] == place(host, dirs, i, names[k]),
    decreases names.len(),
{
    let init = names.drop_last();
    lemma_candidates_for_len(host, dirs, init);
    assert(0 <= k * dirs.len()) by (nonlinear_arith)
        requires
            0 <= k,
    ;
    if k < init.len() {
        lemma_candidate_at(host, dirs, init, k, i);
        assert(init[k] == names[k]);
    } else {
        assert(k * dirs.len() == init.len() * dirs.len());
    }
}

/// Without a request the engine's name decides before the directory does: the search
/// takes the first known name that any directory holds, from the first directory that
/// holds it. It fails where no directory holds any of them.
pub proof fn lemma_auto_search_goes_by_name<H: HostPaths>(
    host: H,
    dirs: Seq<Seq<u8>>,
    executable: spec_fn(Seq<u8>) -> bool,
)
    ensures
        match engine_search(host, None, dirs).outcome(host, executable) {
            SearchStep::Probe(_) => false,
            SearchStep::Resolved(path, kind) => {
                &&& kind == engine_kind(host, path)
                &&& executable(path)
                &&& exists|k: int, i: int|
                    {
                        &&& 0 <= k < engine_names().len()
                        &&& 0 <= i < dirs.len()
                        &&& path == #[trigger] place(host, dirs, i, engine_names()[k])
                        &&& forall|m: int, j: int|
                            0 <= m < k && 0 <= j < dirs.len() ==> !executable(
                                #[trigger] place(host, dirs, j, engine_names()[m]),
                            )
                        &&& forall|j: int|
                            0 <= j < i ==> !executable(
                                #[trigger] place(host, dirs, j, engine_names()[k]),
                            )
                    }
            },
            SearchStep::Failed(error) => {
                &&& error == ResolveError::NoEngine
                &&& forall|m: int, j: int|
                    0 <= m < engine_names().len() && 0 <= j < dirs.len() ==> !executable(
                        #[trigger] place(host, dirs, j, engine_names()[m]),
                    )
            },
        },
{
    let names = engine_names();
    let d = dirs.len() as int;
    let candidates = candidates_for(host, dirs, names);
    lemma_candidates_for_len(host, dirs, names);
    lemma_first_executable_wins(host, candidates, ResolveError::NoEngine, executable);
    match engine_search(host, None, dirs).outcome(host, executable) {
        SearchStep::Resolved(path, kind) => {
            let at = choose|at: int| #[trigger]
                is_first_executable(candidates, executable, at) && path == candidates[at];
            assert(d > 0) by (nonlinear_arith)
                requires
                    0 <= d,
                    0 <= at < names.len() * d,
            ;
            let k = at / d;
            let i = at % d;
            assert(at == k * d + i && 0 <= i < d && 0 <= k < names.len()) by (nonlinear_arith)
                requires
                    d > 0,
                    0 <= at < names.len() * d,
                    k == at / d,
                    i == at % d,
            ;
            lemma_candidate_at(host, dirs, names, k, i);
            assert(path == place(host, dirs, i, names[k]));
            assert forall|m: int, j: int| 0 <= m < k && 0 <= j < d implies !executable(
                #[trigger] place(host, dirs, j, names[m]),
            ) by {
                assert(m * d + j < k * d) by (nonlinear_arith)
                    requires
                        0 <= m < k,
                        0 <= j < d,
                ;
                lemma_candidate_at(host, dirs, names, m, j);
                assert(!executable(candidates[m * d + j]));
            }
            assert forall|j: int| 0 <= j < i implies !executable(
                #[trigger] place(host, dirs, j, names[k]),
            ) by {
                lemma_candidate_at(host, dirs, names, k, j);
                assert(!executable(candidates[k * d + j]));
            }
        },
        SearchStep::Failed(error) => {
            assert forall|m: int, j: int|
                0 <= m < names.len() && 0 <= j < d implies !executable(
                #[trigger] place(host, dirs, j, names[m]),
            ) by {
                lemma_candidate_at(host, dirs, names, m, j);
                assert(!executable(candidates[m * d + j]));
            }
        },
        SearchStep::Probe(_) => {},
    }
}

/// The search directories are those of `$PATH`, in their order, and at most one more.
/// Where there is a home directory, the `jsvu` directory is among those of `$PATH`, in
/// some spelling, or comes last.
pub proof fn lemma_search_dirs_extend_path<H: HostPaths>(
    host: H,
    path_dirs: Seq<Seq<u8>>,
    home: Option<Seq<u8>>,
)
    ensures
        path_dirs.is_prefix_of(search_dirs(host, path_dirs, home)),
        search_dirs(host, path_dirs, home).len() <= path_dirs.len() + 1,
        home is None ==> search_dirs(host, path_dirs, home) == path_dirs,
        home matches Some(dir) ==> {
            ||| lists_dir(host, path_dirs, jsvu_dir(host, dir))
            ||| search_dirs(host, path_dirs, home) == path_dirs.push(jsvu_dir(host, dir))
        },
{
    let dirs = search_dirs(host, path_dirs, home);
    assert(path_dirs =~= dirs.take(path_dirs.len() as int));
}

/// Where there is a home directory `h`, some search directory is the one below `h` into
/// which `jsvu` installs engines, in some spelling, or that one was added behind those of
/// `$PATH`. It is added only where none of them is the same path.
pub proof fn lemma_jsvu_is_searched<H: HostPaths>(host: H, path_dirs: Seq<Seq<u8>>, home: Seq<u8>)
    ensures
        ({
            let dirs = search_dirs(host, path_dirs, Some(home));
            let jsvu = host.join_spec(
                host.join_spec(home, encode_utf8(".jsvu"@)),
                encode_utf8("bin"@),
            );
            if exists|i: int|
                0 <= i < path_dirs.len() && host.same_path_spec(#[trigger] path_dirs[i], jsvu) {
                dirs == path_dirs
            } else {
                dirs == path_dirs.push(jsvu)
            }
        }),
{
}

/// Without a home directory the search directories are those of `$PATH`.
pub proof fn lemma_no_home_adds_nothing<H: HostPaths>(host: H, path_dirs: Seq<Seq<u8>>)
    ensures
        search_dirs(host, path_dirs, None) == path_dirs,
{
}

/// What a step stands for: the same step, on what its path stands for.
pub proof fn lemma_step_views<P: View>(path: P, kind: EngineKind, error: ResolveError)
    ensures
        SearchStep::Probe(path)@ == SearchStep::Probe(path@),
        SearchStep::Resolved(path, kind)@ == SearchStep::Resolved(path@, kind),
        SearchStep::<P>::Failed(error)@ == SearchStep::<P::V>::Failed(error),
{
}

/// On Unix the `jsvu` directory is always among the search directories where there is a
/// home directory.
pub proof fn lemma_unix_search_dirs_list_jsvu(path_dirs: Seq<Seq<u8>>, home: Seq<u8>)
    ensures
        lists_dir(
            UnixPaths,
            search_dirs(UnixPaths, path_dirs, Some(home)),
            jsvu_dir(UnixPaths, home),
        ),
{
    let dirs = search_dirs(UnixPaths, path_dirs, Some(home));
    if !lists_dir(UnixPaths, path_dirs, jsvu_dir(UnixPaths, home)) {
        assert(UnixPaths.same_path_spec(dirs[dirs.len() - 1], jsvu_dir(UnixPaths, home)));
    }
}

} // verus!
