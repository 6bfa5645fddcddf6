//! Package resolution: the cache-priority decision machine and the name
//! derivations of the download/extract protocol.
//!
//! Resolution is a breadth-first traversal over a queue of package
//! specifiers with a visited set: each distinct specifier is processed at
//! most once, so diamond dependencies collapse to one resolution. The
//! decisions (local copy, cache copy, download, not found) live here; the
//! filesystem checks, the network fetch and the dependency extraction stay
//! with the caller, which reports each outcome back.

use vstd::prelude::*;
use crate::scanner::{
    PackageSpec, PackageSpecView, ResolvedPackage, contains_spec, package_dir_spec,
    download_url_spec, pkg_label_spec,
};
use crate::text::{dec_of, u64_to_dec, lemma_push_to_set};

verus! {

/// Mathematical value of a [`ResolvedPackage`].
pub ghost struct ResolvedV {
    pub spec: PackageSpecView,
    pub path: Seq<char>,
}

impl View for ResolvedPackage {
    type V = ResolvedV;

    open spec fn view(&self) -> ResolvedV {
        ResolvedV { spec: self.spec@, path: self.path@ }
    }
}

impl DeepView for ResolvedPackage {
    type V = ResolvedV;

    open spec fn deep_view(&self) -> ResolvedV {
        self.view()
    }
}

/// One package that could not be resolved: a failed download, or a package
/// found nowhere, with every path that was searched.
#[derive(Debug)]
pub enum ResolveFailure {
    Download { spec: PackageSpec, reason: String },
    NotFound { spec: PackageSpec, searched: Vec<String> },
}

/// Mathematical value of a [`ResolveFailure`].
pub ghost enum FailureV {
    Download { spec: PackageSpecView, reason: Seq<char> },
    NotFound { spec: PackageSpecView, searched: Seq<Seq<char>> },
}

impl View for ResolveFailure {
    type V = FailureV;

    open spec fn view(&self) -> FailureV {
        match self {
            ResolveFailure::Download { spec, reason } => FailureV::Download {
                spec: spec@,
                reason: reason@,
            },
            ResolveFailure::NotFound { spec, searched } => FailureV::NotFound {
                spec: spec@,
                searched: searched.deep_view(),
            },
        }
    }
}

impl DeepView for ResolveFailure {
    type V = FailureV;

    open spec fn deep_view(&self) -> FailureV {
        self.view()
    }
}

/// The specifier a failure is about.
pub open spec fn failure_spec(f: FailureV) -> PackageSpecView {
    match f {
        FailureV::Download { spec, .. } => spec,
        FailureV::NotFound { spec, .. } => spec,
    }
}

/// The searched paths of a not-found failure, one indented line each.
pub open spec fn searched_lines_spec(s: Seq<Seq<char>>) -> Seq<char>
    decreases s.len(),
{
    if s.len() == 0 {
        Seq::empty()
    } else if s.len() == 1 {
        "      "@ + s[0]
    } else {
        searched_lines_spec(s.drop_last()) + "\n      "@ + s.last()
    }
}

/// The description of one failure: the package label with the reason, and
/// for a not-found failure every path that was searched.
pub open spec fn failure_message_spec(f: FailureV) -> Seq<char> {
    match f {
        FailureV::Download { spec, reason } => pkg_label_spec(spec) + ": download failed: "@
            + reason,
        FailureV::NotFound { spec, searched } => pkg_label_spec(spec) + ": not found, searched:\n"@
            + searched_lines_spec(searched),
    }
}

impl ResolveFailure {
    /// Describe this failure.
    pub fn message(&self) -> (r: String)
        ensures
            r@ == failure_message_spec(self@),
    {
        match self {
            ResolveFailure::Download { spec, reason } => {
                let mut s = spec.label();
                s.append(": download failed: ");
                s.append(reason.as_str());
                s
            },
            ResolveFailure::NotFound { spec, searched } => {
                let mut s = spec.label();
                s.append(": not found, searched:\n");
                let ghost sv = searched.deep_view();
                let ghost pre = s@;
                let mut i: usize = 0;
                while i < searched.len()
                    invariant
                        i <= searched.len(),
                        sv == searched.deep_view(),
                        s@ == pre + searched_lines_spec(sv.take(i as int)),
                    decreases searched.len() - i,
                {
                    proof {
                        assert(sv.take(i + 1).drop_last() =~= sv.take(i as int));
                        assert(sv.take(i + 1).last() == sv[i as int]);
                    }
                    if i == 0 {
                        s.append("      ");
                    } else {
                        s.append("\n      ");
                    }
                    s.append(searched[i].as_str());
                    proof {
                        assert(s@ =~= pre + searched_lines_spec(sv.take(i + 1)));
                    }
                    i = i + 1;
                }
                proof {
                    assert(sv.take(searched@.len() as int) =~= sv);
                }
                s
            },
        }
    }
}

/// The aggregate error of a failed resolution: how many packages failed,
/// and every failure's description.
pub open spec fn failure_items_spec(fs: Seq<FailureV>) -> Seq<char>
    decreases fs.len(),
{
    if fs.len() == 0 {
        Seq::empty()
    } else if fs.len() == 1 {
        failure_message_spec(fs[0])
    } else {
        failure_items_spec(fs.drop_last()) + "\n  - "@ + failure_message_spec(fs.last())
    }
}

pub open spec fn failures_message_spec(fs: Seq<FailureV>) -> Seq<char> {
    "Failed to resolve "@ + dec_of(fs.len()) + " package(s):\n  - "@ + failure_items_spec(fs)
}

/// Describe a failed resolution: every failure, with its reason and the
/// paths searched.
pub fn describe_failures(failures: &Vec<ResolveFailure>) -> (r: String)
    requires
        failures@.len() >= 1,
    ensures
        r@ == failures_message_spec(failures.deep_view()),
{
    let ghost fv = failures.deep_view();
    let mut s = "Failed to resolve ".to_owned();
    let count = u64_to_dec(failures.len() as u64);
    s.append(count.as_str());
    s.append(" package(s):\n  - ");
    let ghost pre = s@;
    proof {
        assert(pre =~= "Failed to resolve "@ + dec_of(fv.len()) + " package(s):\n  - "@);
    }
    let mut i: usize = 0;
    while i < failures.len()
        invariant
            i <= failures.len(),
            fv == failures.deep_view(),
            s@ == pre + failure_items_spec(fv.take(i as int)),
        decreases failures.len() - i,
    {
        proof {
            assert(fv.take(i + 1).drop_last() =~= fv.take(i as int));
            assert(fv.take(i + 1).last() == fv[i as int]);
        }
        if i > 0 {
            s.append("\n  - ");
        }
        s.append(failures[i].message().as_str());
        proof {
            assert(s@ =~= pre + failure_items_spec(fv.take(i + 1)));
        }
        i = i + 1;
    }
    proof {
        assert(fv.take(failures@.len() as int) =~= fv);
    }
    s
}

/// What the caller should do for the specifier just taken from the queue.
#[derive(Debug)]
pub enum Decision {
    /// Use the copy in the local data directory; extract its dependencies.
    UseLocal,
    /// Use the copy in the cache directory; extract its dependencies.
    UseCache,
    /// Fetch the archive at `url` and extract it into `dest`, then report
    /// the outcome through [`Resolver::on_downloaded`].
    Download { url: String, dest: String },
    /// The package was recorded as not found; move on.
    NotFound,
}

/// A specifier taken from the queue, with the paths the caller must test
/// for existence before calling [`Resolver::decide`].
pub struct PendingCheck {
    pub spec: PackageSpec,
    pub local_path: Option<String>,
    pub cache_path: String,
}

/// The queue with the longest prefix of already-seen specifiers removed.
pub open spec fn drop_seen(q: Seq<PackageSpecView>, seen: Set<PackageSpecView>) -> Seq<
    PackageSpecView,
>
    decreases q.len(),
{
    if q.len() == 0 {
        q
    } else if seen.contains(q[0]) {
        drop_seen(q.drop_first(), seen)
    } else {
        q
    }
}

/// The well-formedness of a resolution state, over its parts: resolved
/// and failed specifiers pairwise distinct and all seen; an in-flight
/// specifier seen but neither resolved nor failed yet.
pub open spec fn wf_parts(
    resolved: Seq<ResolvedV>,
    failures: Seq<FailureV>,
    seen: Set<PackageSpecView>,
    current: Option<PackageSpecView>,
) -> bool {
    &&& forall|i: int, j: int|
        #![trigger resolved[i], resolved[j]]
        0 <= i < j < resolved.len() ==> resolved[i].spec != resolved[j].spec
    &&& forall|i: int, j: int|
        #![trigger failures[i], failures[j]]
        0 <= i < j < failures.len() ==> failure_spec(failures[i]) != failure_spec(failures[j])
    &&& forall|i: int, j: int|
        #![trigger resolved[i], failures[j]]
        0 <= i < resolved.len() && 0 <= j < failures.len() ==> resolved[i].spec != failure_spec(
            failures[j],
        )
    &&& forall|i: int| 0 <= i < resolved.len() ==> seen.contains((#[trigger] resolved[i]).spec)
    &&& forall|i: int| 0 <= i < failures.len() ==> seen.contains(failure_spec(#[trigger] failures[i]))
    &&& match current {
        Some(p) => {
            &&& seen.contains(p)
            &&& forall|i: int| 0 <= i < resolved.len() ==> (#[trigger] resolved[i]).spec != p
            &&& forall|i: int|
                0 <= i < failures.len() ==> failure_spec(#[trigger] failures[i]) != p
        },
        None => true,
    }
}

/// Breadth-first package resolution state: a FIFO queue of pending
/// specifiers, the set already processed, the packages resolved so far,
/// and the failures collected so far. `current` is the specifier handed
/// out by [`Resolver::next_pending`] and not yet decided.
pub struct Resolver {
    pub queue: Vec<PackageSpec>,
    pub seen: Vec<PackageSpec>,
    pub resolved: Vec<ResolvedPackage>,
    pub failures: Vec<ResolveFailure>,
    pub current: Option<PackageSpec>,
    pub data_dir: Option<String>,
    pub cache_dir: String,
    pub refresh: bool,
}

impl Resolver {
    /// The pending queue, as values.
    pub open spec fn queue_v(&self) -> Seq<PackageSpecView> {
        self.queue.deep_view()
    }

    /// The set of specifiers already processed.
    pub open spec fn seen_set(&self) -> Set<PackageSpecView> {
        self.seen.deep_view().to_set()
    }

    /// The packages resolved so far, as values.
    pub open spec fn resolved_v(&self) -> Seq<ResolvedV> {
        self.resolved.deep_view()
    }

    /// The failures collected so far, as values.
    pub open spec fn failures_v(&self) -> Seq<FailureV> {
        self.failures.deep_view()
    }

    /// The specifier in flight, as a value.
    pub open spec fn current_v(&self) -> Option<PackageSpecView> {
        match self.current {
            Some(p) => Some(p@),
            None => None,
        }
    }

    /// Whether a local data directory takes part in resolution.
    pub open spec fn has_local(&self) -> bool {
        self.data_dir is Some
    }

    /// The specifier at `i` of the resolved list.
    pub open spec fn resolved_spec(&self, i: int) -> PackageSpecView {
        self.resolved_v()[i].spec
    }

    /// Well-formedness: every processed specifier went one way exactly
    /// once. The resolved and failed specifiers are pairwise distinct,
    /// all of them were seen, and the in-flight specifier was seen but
    /// neither resolved nor failed yet.
    pub open spec fn wf(&self) -> bool {
        wf_parts(self.resolved_v(), self.failures_v(), self.seen_set(), self.current_v())
    }

    /// Start a resolution over the given direct specifiers.
    pub fn new(
        direct: Vec<PackageSpec>,
        data_dir: Option<String>,
        cache_dir: String,
        refresh: bool,
    ) -> (r: Resolver)
        ensures
            r.wf(),
            r.queue_v() == direct.deep_view(),
            r.seen_set() == Set::<PackageSpecView>::empty(),
            r.resolved_v() == Seq::<ResolvedV>::empty(),
            r.failures_v() == Seq::<FailureV>::empty(),
            r.current_v() is None,
            r.has_local() == (data_dir is Some),
            r.data_dir == data_dir,
            r.cache_dir == cache_dir,
            r.refresh == refresh,
    {
        let r = Resolver {
            queue: direct,
            seen: Vec::new(),
            resolved: Vec::new(),
            failures: Vec::new(),
            current: None,
            data_dir,
            cache_dir,
            refresh,
        };
        proof {
            assert(r.seen.deep_view().to_set() =~= Set::<PackageSpecView>::empty());
            assert(r.resolved.deep_view() =~= Seq::<ResolvedV>::empty());
            assert(r.failures.deep_view() =~= Seq::<FailureV>::empty());
        }
        r
    }

    /// Take the next not-yet-seen specifier off the queue, mark it seen,
    /// and hand back the paths to test. `None` means the traversal is
    /// done: every queued specifier had already been processed.
    pub fn next_pending(&mut self) -> (r: Option<PendingCheck>)
        requires
            old(self).wf(),
            old(self).current_v() is None,
        ensures
            final(self).wf(),
            final(self).resolved_v() == old(self).resolved_v(),
            final(self).failures_v() == old(self).failures_v(),
            final(self).data_dir == old(self).data_dir,
            final(self).cache_dir == old(self).cache_dir,
            final(self).refresh == old(self).refresh,
            ({
                let rest = drop_seen(old(self).queue_v(), old(self).seen_set());
                match r {
                    None => {
                        &&& rest.len() == 0
                        &&& final(self).queue_v().len() == 0
                        &&& final(self).seen_set() == old(self).seen_set()
                        &&& final(self).current_v() is None
                    },
                    Some(pc) => {
                        &&& rest.len() > 0
                        &&& pc.spec@ == rest[0]
                        &&& final(self).queue_v() == rest.drop_first()
                        &&& final(self).seen_set() == old(self).seen_set().insert(rest[0])
                        &&& final(self).current_v() == Some(rest[0])
                        &&& pc.cache_path@ == package_dir_spec(old(self).cache_dir@, rest[0])
                        &&& match (old(self).data_dir, pc.local_path) {
                            (Some(d), Some(lp)) => lp@ == package_dir_spec(d@, rest[0]),
                            (None, None) => true,
                            _ => false,
                        }
                    },
                }
            }),
    {
        let ghost q0 = self.queue.deep_view();
        let ghost s0 = self.seen.deep_view().to_set();
        while self.queue.len() > 0
            invariant
                self.wf(),
                self.current_v() is None,
                q0 == old(self).queue.deep_view(),
                s0 == old(self).seen.deep_view().to_set(),
                self.seen.deep_view().to_set() == s0,
                self.resolved == old(self).resolved,
                self.failures == old(self).failures,
                self.seen == old(self).seen,
                self.data_dir == old(self).data_dir,
                self.cache_dir == old(self).cache_dir,
                self.refresh == old(self).refresh,
                drop_seen(q0, s0) == drop_seen(self.queue.deep_view(), s0),
            decreases self.queue.len(),
        {
            let ghost qpre = self.queue.deep_view();
            let head = self.queue.remove(0);
            proof {
                assert(self.queue.deep_view() =~= qpre.drop_first());
                assert(qpre[0] == head@);
            }
            let is_seen = contains_spec(&self.seen, &head);
            proof {
                if is_seen {
                    assert(s0.contains(head@));
                } else {
                    assert(!s0.contains(head@));
                    assert(drop_seen(qpre, s0) == qpre);
                }
            }
            if !is_seen {
                let ghost seenpre = self.seen.deep_view();
                self.seen.push(head.clone());
                proof {
                    assert(self.seen.deep_view() =~= seenpre.push(head@));
                    lemma_push_to_set(seenpre, head@);
                }
                let local_path = match &self.data_dir {
                    Some(d) => Some(head.package_dir(d.as_str())),
                    None => None,
                };
                let cache_path = head.package_dir(self.cache_dir.as_str());
                self.current = Some(head.clone());
                let pc = PendingCheck { spec: head, local_path, cache_path };
                proof {
                    let rest = drop_seen(q0, s0);
                    assert(drop_seen(qpre, s0) == qpre);
                    assert(rest == qpre);
                    assert(pc.spec@ == rest[0]);
                    assert(self.queue.deep_view() == rest.drop_first());
                    assert(self.seen.deep_view().to_set() == s0.insert(rest[0]));
                    assert(self.current_v() == Some(rest[0]));
                }
                return Some(pc);
            }
        }
        proof {
            assert(self.queue.deep_view() =~= Seq::<PackageSpecView>::empty());
        }
        None
    }

    /// Decide how to resolve the in-flight specifier, from whether its
    /// local and cache copies exist. Priority: local copy, then cache
    /// copy unless a refresh is forced, then download for a registry
    /// namespace; otherwise the package is recorded as not found with
    /// every searched path. A cached package is never downloaded when
    /// `refresh` is off.
    pub fn decide(&mut self, local_exists: bool, cache_exists: bool) -> (r: Decision)
        requires
            old(self).wf(),
            old(self).current_v() is Some,
        ensures
            final(self).wf(),
            final(self).queue_v() == old(self).queue_v(),
            final(self).seen_set() == old(self).seen_set(),
            final(self).data_dir == old(self).data_dir,
            final(self).cache_dir == old(self).cache_dir,
            final(self).refresh == old(self).refresh,
            ({
                let p = old(self).current_v()->Some_0;
                let use_local = old(self).has_local() && local_exists;
                let use_cache = !use_local && cache_exists && !old(self).refresh;
                let download = !use_local && !use_cache && p.namespace == "preview"@;
                &&& (r is UseLocal) == use_local
                &&& (r is UseCache) == use_cache
                &&& (r is Download) == download
                &&& (r is NotFound) == (!use_local && !use_cache && !download)
                &&& use_local ==> {
                    &&& final(self).resolved_v() == old(self).resolved_v().push(
                        ResolvedV {
                            spec: p,
                            path: package_dir_spec(old(self).data_dir->Some_0@, p),
                        },
                    )
                    &&& final(self).failures_v() == old(self).failures_v()
                    &&& final(self).current_v() is None
                }
                &&& use_cache ==> {
                    &&& final(self).resolved_v() == old(self).resolved_v().push(
                        ResolvedV { spec: p, path: package_dir_spec(old(self).cache_dir@, p) },
                    )
                    &&& final(self).failures_v() == old(self).failures_v()
                    &&& final(self).current_v() is None
                }
                &&& download ==> {
                    &&& *final(self) == *old(self)
                    &&& r matches Decision::Download { url, dest } && url@ == download_url_spec(p)
                        && dest@ == package_dir_spec(old(self).cache_dir@, p)
                }
                &&& (r is NotFound) ==> {
                    &&& final(self).resolved_v() == old(self).resolved_v()
                    &&& final(self).failures_v() == old(self).failures_v().push(
                        FailureV::NotFound {
                            spec: p,
                            searched: if old(self).has_local() {
                                seq![
                                    package_dir_spec(old(self).data_dir->Some_0@, p),
                                    package_dir_spec(old(self).cache_dir@, p),
                                ]
                            } else {
                                seq![package_dir_spec(old(self).cache_dir@, p)]
                            },
                        },
                    )
                    &&& final(self).current_v() is None
                }
            }),
    {
        let p = match &self.current {
            Some(p) => p.clone(),
            None => {
                proof {
                    assert(false);
                }
                vstd::pervasive::unreached()
            },
        };
        let has_local = matches!(&self.data_dir, Some(_));
        if has_local && local_exists {
            let d = match &self.data_dir {
                Some(d) => d.clone(),
                None => {
                    proof {
                        assert(false);
                    }
                    vstd::pervasive::unreached()
                },
            };
            let path = p.package_dir(d.as_str());
            let ghost r0 = self.resolved.deep_view();
            self.resolved.push(ResolvedPackage { spec: p, path });
            self.current = None;
            proof {
                assert(self.resolved.deep_view() =~= r0.push(
                    ResolvedV {
                        spec: old(self).current_v()->Some_0,
                        path: package_dir_spec(old(self).data_dir->Some_0@, old(
                            self,
                        ).current_v()->Some_0),
                    },
                ));
            }
            Decision::UseLocal
        } else if cache_exists && !self.refresh {
            let path = p.package_dir(self.cache_dir.as_str());
            let ghost r0 = self.resolved.deep_view();
            self.resolved.push(ResolvedPackage { spec: p, path });
            self.current = None;
            proof {
                assert(self.resolved.deep_view() =~= r0.push(
                    ResolvedV {
                        spec: old(self).current_v()->Some_0,
                        path: package_dir_spec(old(self).cache_dir@, old(self).current_v()->Some_0),
                    },
                ));
            }
            Decision::UseCache
        } else if p.is_downloadable() {
            let url = p.download_url();
            let dest = p.package_dir(self.cache_dir.as_str());
            Decision::Download { url, dest }
        } else {
            let mut searched: Vec<String> = Vec::new();
            match &self.data_dir {
                Some(d) => {
                    searched.push(p.package_dir(d.as_str()));
                },
                None => {},
            }
            searched.push(p.package_dir(self.cache_dir.as_str()));
            let ghost f0 = self.failures.deep_view();
            let ghost sv = searched.deep_view();
            self.failures.push(ResolveFailure::NotFound { spec: p, searched });
            self.current = None;
            proof {
                let pv = old(self).current_v()->Some_0;
                if old(self).has_local() {
                    assert(sv =~= seq![
                        package_dir_spec(old(self).data_dir->Some_0@, pv),
                        package_dir_spec(old(self).cache_dir@, pv),
                    ]);
                } else {
                    assert(sv =~= seq![package_dir_spec(old(self).cache_dir@, pv)]);
                }
                assert(self.failures.deep_view() =~= f0.push(
                    FailureV::NotFound { spec: pv, searched: sv },
                ));
            }
            Decision::NotFound
        }
    }

    /// Report the outcome of the download that [`Resolver::decide`] asked
    /// for: on success the package is resolved at its cache path; on
    /// failure the reason is recorded and the traversal goes on.
    pub fn on_downloaded(&mut self, outcome: Result<(), String>)
        requires
            old(self).wf(),
            old(self).current_v() is Some,
        ensures
            final(self).wf(),
            final(self).queue_v() == old(self).queue_v(),
            final(self).seen_set() == old(self).seen_set(),
            final(self).data_dir == old(self).data_dir,
            final(self).cache_dir == old(self).cache_dir,
            final(self).refresh == old(self).refresh,
            final(self).current_v() is None,
            ({
                let p = old(self).current_v()->Some_0;
                match outcome {
                    Ok(_) => {
                        &&& final(self).resolved_v() == old(self).resolved_v().push(
                            ResolvedV { spec: p, path: package_dir_spec(old(self).cache_dir@, p) },
                        )
                        &&& final(self).failures_v() == old(self).failures_v()
                    },
                    Err(e) => {
                        &&& final(self).resolved_v() == old(self).resolved_v()
                        &&& final(self).failures_v() == old(self).failures_v().push(
                            FailureV::Download { spec: p, reason: e@ },
                        )
                    },
                }
            }),
    {
        let p = match &self.current {
            Some(p) => p.clone(),
            None => {
                proof {
                    assert(false);
                }
                vstd::pervasive::unreached()
            },
        };
        match outcome {
            Ok(_) => {
                let path = p.package_dir(self.cache_dir.as_str());
                let ghost r0 = self.resolved.deep_view();
                self.resolved.push(ResolvedPackage { spec: p, path });
                self.current = None;
                proof {
                    assert(self.resolved.deep_view() =~= r0.push(
                        ResolvedV {
                            spec: old(self).current_v()->Some_0,
                            path: package_dir_spec(old(self).cache_dir@, old(
                                self,
                            ).current_v()->Some_0),
                        },
                    ));
                }
            },
            Err(reason) => {
                let ghost f0 = self.failures.deep_view();
                let ghost rv = reason@;
                self.failures.push(ResolveFailure::Download { spec: p, reason });
                self.current = None;
                proof {
                    assert(self.failures.deep_view() =~= f0.push(
                        FailureV::Download { spec: old(self).current_v()->Some_0, reason: rv },
                    ));
                }
            },
        }
    }

    /// Add the dependencies extracted from a resolved package to the
    /// queue.
    pub fn add_dependencies(&mut self, deps: Vec<PackageSpec>)
        requires
            old(self).wf(),
        ensures
            final(self).wf(),
            final(self).queue_v() == old(self).queue_v() + deps.deep_view(),
            final(self).seen_set() == old(self).seen_set(),
            final(self).resolved_v() == old(self).resolved_v(),
            final(self).failures_v() == old(self).failures_v(),
            final(self).current_v() == old(self).current_v(),
            final(self).data_dir == old(self).data_dir,
            final(self).cache_dir == old(self).cache_dir,
            final(self).refresh == old(self).refresh,
    {
        let ghost q0 = self.queue.deep_view();
        let ghost d0 = deps.deep_view();
        let mut rest = deps;
        self.queue.append(&mut rest);
        proof {
            assert(self.queue.deep_view() =~= q0 + d0);
        }
    }

    /// Finish the traversal: if any package failed, every failure is
    /// reported and nothing is returned; otherwise all resolved packages
    /// are.
    pub fn finish(self) -> (r: Result<Vec<ResolvedPackage>, Vec<ResolveFailure>>)
        ensures
            self.failures_v().len() == 0 <==> r is Ok,
            r matches Ok(v) ==> v.deep_view() == self.resolved_v(),
            r matches Err(f) ==> f.deep_view() == self.failures_v(),
    {
        if self.failures.len() == 0 {
            Ok(self.resolved)
        } else {
            Err(self.failures)
        }
    }
}

/// Diamond dependencies collapse: in a well-formed resolver state no
/// package specifier appears twice among the resolved packages, however
/// many dependents queued it.
pub proof fn lemma_resolved_once(r: Resolver)
    requires
        r.wf(),
    ensures
        forall|i: int, j: int|
            0 <= i < j < r.resolved_v().len() ==> r.resolved_spec(i) != r.resolved_spec(j),
{
}

/// The lock file guarding a download: a sibling of the destination.
pub fn lock_file_path(dest: &str) -> (r: String)
    ensures
        r@ == dest@ + ".lock"@,
{
    let mut s = dest.to_owned();
    s.append(".lock");
    s
}

/// The temporary extraction directory for a download: a sibling of the
/// destination, stamped with the process id so concurrent processes never
/// share it.
pub fn temp_dir_path(dest: &str, pid: u64) -> (r: String)
    ensures
        r@ == dest@ + ".tmp."@ + dec_of(pid as nat),
{
    let mut s = dest.to_owned();
    s.append(".tmp.");
    let dec = u64_to_dec(pid);
    s.append(dec.as_str());
    s
}

/// Atomic publication: everything written before the final rename goes to
/// the lock file or the temporary directory, and neither is ever the
/// destination itself, so a crash before the rename leaves the
/// destination untouched.
pub proof fn lemma_temp_paths_differ(dest: Seq<char>, pid: nat)
    ensures
        dest + ".tmp."@ + dec_of(pid) != dest,
        dest + ".lock"@ != dest,
{
    reveal_strlit(".tmp.");
    reveal_strlit(".lock");
    lemma_dec_of_len(pid);
    assert((dest + ".tmp."@ + dec_of(pid)).len() > dest.len());
    assert((dest + ".lock"@).len() > dest.len());
}

/// A decimal rendering is never empty.
proof fn lemma_dec_of_len(n: nat)
    ensures
        dec_of(n).len() >= 1,
    decreases n,
{
    if n >= 10 {
        lemma_dec_of_len(n / 10);
    }
}

} // verus!
