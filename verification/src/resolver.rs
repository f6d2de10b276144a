//! The icon resolver: an executable step machine proved to follow the
//! transition function of [`crate::model`] exactly.
//!
//! The machine owns no filesystem access. Its driver performs each
//! [`Action`] — probe a path, read an index file — and hands back the
//! matching [`Event`]; the machine decides everything else: theme order,
//! candidate order, inheritance traversal, fallback tiers. A resolution
//! therefore computes the same answer as the model does on the same
//! answers, whatever the driver is — the real filesystem or a test's
//! mock of one.

use vstd::prelude::*;
use vstd::string::*;

use crate::candidates::{build_flat_cands, build_index_path, build_theme_cands, build_theme_dir};
use crate::model::{
    done_st, enter_bare, enter_pixmaps, next_theme, finish_theme, advance_base, fresh_themes,
    seed_worklist, spec_init, spec_step, AbsAction, AbsEvent, AbsPhase, AbsResolver,
};
use crate::model::{lemma_init_wf, lemma_step_preserves_wf};
use crate::text::str_eq;
use crate::theme_index::{parse_index_theme, ThemeDescriptor};

verus! {

/// What the resolver asks its driver to do next.
pub enum Action {
    /// Ask whether this path names an existing file.
    Probe(String),
    /// Ask for the text of this theme index file, absent if unreadable.
    ReadIndex(String),
    /// The resolution is over, with the resolved path or a confirmed miss.
    Done(Option<String>),
}

impl View for Action {
    type V = AbsAction;

    open spec fn view(&self) -> AbsAction {
        match self {
            Action::Probe(p) => AbsAction::Probe(p@),
            Action::ReadIndex(p) => AbsAction::ReadIndex(p@),
            Action::Done(r) => AbsAction::Done(r.deep_view()),
        }
    }
}

/// The driver's answer to the pending action.
pub enum Event {
    /// Answer to a probe: the file exists, or it does not.
    FileExists(bool),
    /// Answer to an index read: the file's text, or nothing.
    IndexContent(Option<String>),
}

impl View for Event {
    type V = AbsEvent;

    open spec fn view(&self) -> AbsEvent {
        match self {
            Event::FileExists(b) => AbsEvent::FileExists(*b),
            Event::IndexContent(c) => AbsEvent::IndexContent(c.deep_view()),
        }
    }
}

enum Phase {
    AbsCheck,
    AwaitIndex { theme: String, base: usize, pending: Vec<String> },
    Probing { theme: String, base: usize, pending: Vec<String>, cands: Vec<String>, at: usize },
    PixmapProbing { cands: Vec<String>, at: usize },
    BareProbing { cands: Vec<String>, at: usize },
    Finished { result: Option<String> },
}

spec fn phase_view(p: Phase) -> AbsPhase {
    match p {
        Phase::AbsCheck => AbsPhase::AbsCheck,
        Phase::AwaitIndex { theme, base, pending } => AbsPhase::AwaitIndex {
            theme: theme@,
            base: base as int,
            pending: pending.deep_view(),
        },
        Phase::Probing { theme, base, pending, cands, at } => AbsPhase::Probing {
            theme: theme@,
            base: base as int,
            pending: pending.deep_view(),
            cands: cands.deep_view(),
            at: at as int,
        },
        Phase::PixmapProbing { cands, at } => AbsPhase::PixmapProbing {
            cands: cands.deep_view(),
            at: at as int,
        },
        Phase::BareProbing { cands, at } => AbsPhase::BareProbing {
            cands: cands.deep_view(),
            at: at as int,
        },
        Phase::Finished { result } => AbsPhase::Finished { result: result.deep_view() },
    }
}

/// A resolution in progress. See the module documentation for the
/// driving protocol.
pub struct Resolver {
    name: String,
    bases: Vec<String>,
    pixmaps: Vec<String>,
    bare_base: bool,
    worklist: Vec<String>,
    visited: Vec<String>,
    reads: Ghost<Seq<(Seq<char>, int)>>,
    phase: Phase,
}

impl View for Resolver {
    type V = AbsResolver;

    closed spec fn view(&self) -> AbsResolver {
        AbsResolver {
            name: self.name@,
            bases: self.bases.deep_view(),
            pixmaps: self.pixmaps.deep_view(),
            bare_base: self.bare_base,
            worklist: self.worklist.deep_view(),
            visited: self.visited.deep_view(),
            reads: self.reads@,
            phase: phase_view(self.phase),
        }
    }
}

/// Does this vector hold this string?
fn contains_str(v: &Vec<String>, s: &str) -> (r: bool)
    ensures
        r == v.deep_view().contains(s@),
{
    let mut i: usize = 0;
    while i < v.len()
        invariant
            i <= v@.len(),
            forall|j: int| 0 <= j < i ==> v.deep_view()[j] != s@,
        decreases v@.len() - i,
    {
        if str_eq(v[i].as_str(), s) {
            assert(v.deep_view().contains(s@)) by {
                assert(v.deep_view()[i as int] == s@);
            }
            return true;
        }
        i += 1;
    }
    false
}

fn clone_opt(o: &Option<String>) -> (r: Option<String>)
    ensures
        r.deep_view() == o.deep_view(),
{
    match o {
        Option::Some(s) => Option::Some(s.clone()),
        Option::None => Option::None,
    }
}

impl Resolver {
    /// Structural soundness of the state; established by [`Resolver::new`]
    /// and preserved by every [`Resolver::step`].
    pub open spec fn wf(&self) -> bool {
        self@.wf()
    }

    /// Starts a resolution and returns the machine together with its first
    /// action. The name must be non-empty and the base directory list
    /// non-empty, as [`crate::search_path::base_dirs`] guarantees.
    pub fn new(
        name: String,
        hint: Option<&str>,
        bases: Vec<String>,
        pixmaps: Vec<String>,
        bare_base: bool,
    ) -> (r: (Resolver, Action))
        requires
            name@.len() >= 1,
            bases.deep_view().len() >= 1,
        ensures
            (r.0@, r.1@) == spec_init(
                name@,
                hint.deep_view(),
                bases.deep_view(),
                pixmaps.deep_view(),
                bare_base,
            ),
            r.0.wf(),
    {
        proof {
            lemma_init_wf(
                name@,
                hint.deep_view(),
                bases.deep_view(),
                pixmaps.deep_view(),
                bare_base,
            );
        }
        let mut worklist: Vec<String> = Vec::new();
        match hint {
            Option::Some(h) => {
                worklist.push(h.to_owned());
            },
            Option::None => {},
        }
        proof {
            assert(worklist.deep_view() =~= seed_worklist(hint.deep_view()));
        }
        let absolute = name.get_char(0) == '/';
        let mut r = Resolver {
            name,
            bases,
            pixmaps,
            bare_base,
            worklist,
            visited: Vec::new(),
            reads: Ghost(Seq::empty()),
            phase: Phase::AbsCheck,
        };
        proof {
            assert(r.visited.deep_view() =~= Seq::<Seq<char>>::empty());
        }
        if absolute {
            let p = r.name.clone();
            let ghost target = spec_init(
                r.name@,
                hint.deep_view(),
                r.bases.deep_view(),
                r.pixmaps.deep_view(),
                bare_base,
            );
            let a = Action::Probe(p);
            proof {
                assert(r@ =~~= target.0);
                assert(a@ =~~= target.1);
            }
            (r, a)
        } else {
            let a = r.exec_next_theme();
            (r, a)
        }
    }

    fn exec_done(&mut self, res: Option<String>) -> (a: Action)
        ensures
            (final(self)@, a@) == done_st(old(self)@, res.deep_view()),
    {
        let out = clone_opt(&res);
        self.phase = Phase::Finished { result: res };
        let a = Action::Done(out);
        proof {
            assert(self@ =~~= done_st(old(self)@, res.deep_view()).0);
            assert(a@ =~~= done_st(old(self)@, res.deep_view()).1);
        }
        a
    }

    fn exec_enter_bare(&mut self) -> (a: Action)
        ensures
            (final(self)@, a@) == enter_bare(old(self)@),
    {
        if self.bare_base {
            let cands = build_flat_cands(&self.bases, self.name.as_str());
            if cands.len() > 0 {
                let first = cands[0].clone();
                self.phase = Phase::BareProbing { cands, at: 0 };
                let a = Action::Probe(first);
                proof {
                    assert(self@ =~~= enter_bare(old(self)@).0);
                    assert(a@ =~~= enter_bare(old(self)@).1);
                }
                a
            } else {
                self.exec_done(Option::None)
            }
        } else {
            self.exec_done(Option::None)
        }
    }

    fn exec_enter_pixmaps(&mut self) -> (a: Action)
        ensures
            (final(self)@, a@) == enter_pixmaps(old(self)@),
    {
        let cands = build_flat_cands(&self.pixmaps, self.name.as_str());
        if cands.len() > 0 {
            let first = cands[0].clone();
            self.phase = Phase::PixmapProbing { cands, at: 0 };
            let a = Action::Probe(first);
            proof {
                assert(self@ =~~= enter_pixmaps(old(self)@).0);
                assert(a@ =~~= enter_pixmaps(old(self)@).1);
            }
            a
        } else {
            self.exec_enter_bare()
        }
    }

    fn exec_next_theme(&mut self) -> (a: Action)
        requires
            old(self)@.bases.len() >= 1,
        ensures
            (final(self)@, a@) == next_theme(old(self)@),
    {
        if self.worklist.len() > 0 {
            let t = self.worklist.remove(0);
            proof {
                assert(self.worklist.deep_view() =~= old(self)@.worklist.drop_first());
            }
            let ip = build_index_path(self.bases[0].as_str(), t.as_str());
            let ghost prev_visited = self.visited.deep_view();
            self.visited.push(t.clone());
            proof {
                assert(self.visited.deep_view() =~= prev_visited.push(t@));
                self.reads@ = self.reads@.push((t@, 0));
            }
            let pending0: Vec<String> = Vec::new();
            proof {
                assert(pending0.deep_view() =~= Seq::<Seq<char>>::empty());
            }
            self.phase = Phase::AwaitIndex { theme: t, base: 0, pending: pending0 };
            let a = Action::ReadIndex(ip);
            proof {
                assert(self@ =~~= next_theme(old(self)@).0);
                assert(a@ =~~= next_theme(old(self)@).1);
            }
            a
        } else if !contains_str(&self.visited, "hicolor") {
            let t = String::from_str("hicolor");
            let ip = build_index_path(self.bases[0].as_str(), t.as_str());
            let ghost prev_visited = self.visited.deep_view();
            self.visited.push(t.clone());
            proof {
                assert(self.visited.deep_view() =~= prev_visited.push("hicolor"@));
                self.reads@ = self.reads@.push(("hicolor"@, 0));
            }
            let pending0: Vec<String> = Vec::new();
            proof {
                assert(pending0.deep_view() =~= Seq::<Seq<char>>::empty());
            }
            self.phase = Phase::AwaitIndex { theme: t, base: 0, pending: pending0 };
            let a = Action::ReadIndex(ip);
            proof {
                assert(self@ =~~= next_theme(old(self)@).0);
                assert(a@ =~~= next_theme(old(self)@).1);
            }
            a
        } else {
            self.exec_enter_pixmaps()
        }
    }

    fn exec_finish_theme(&mut self, pending: Vec<String>) -> (a: Action)
        requires
            old(self)@.bases.len() >= 1,
        ensures
            (final(self)@, a@) == finish_theme(old(self)@, pending.deep_view()),
    {
        let ghost pv = pending.deep_view();
        let ghost w0 = self.worklist.deep_view();
        let ghost v0 = self.visited.deep_view();
        let mut i: usize = 0;
        proof {
            assert(pv.take(0) =~= Seq::<Seq<char>>::empty());
            assert(w0 + fresh_themes(pv.take(0), w0, v0) =~= w0);
        }
        while i < pending.len()
            invariant
                i <= pending@.len(),
                pv == pending.deep_view(),
                v0 == self.visited.deep_view(),
                self.worklist.deep_view() == w0 + fresh_themes(pv.take(i as int), w0, v0),
                self.name == old(self).name,
                self.bases == old(self).bases,
                self.pixmaps == old(self).pixmaps,
                self.bare_base == old(self).bare_base,
                self.visited == old(self).visited,
                self.reads == old(self).reads,
                self.phase == old(self).phase,
                w0 == old(self)@.worklist,
            decreases pending@.len() - i,
        {
            let ghost f = fresh_themes(pv.take(i as int), w0, v0);
            proof {
                assert(pv.take(i + 1).drop_last() =~= pv.take(i as int));
                assert(pv.take(i + 1).last() == pv[i as int]);
                crate::model::lemma_contains_concat(w0, f, pv[i as int]);
            }
            let t = pending[i].clone();
            let in_work = contains_str(&self.worklist, t.as_str());
            let in_vis = contains_str(&self.visited, t.as_str());
            if !in_work && !in_vis {
                let ghost prev = self.worklist.deep_view();
                self.worklist.push(t);
                proof {
                    assert(self.worklist.deep_view() =~= prev.push(pv[i as int]));
                    assert(w0 + f.push(pv[i as int]) =~= (w0 + f).push(pv[i as int]));
                }
            }
            i += 1;
        }
        proof {
            assert(pv.take(pv.len() as int) =~= pv);
            assert(self@ =~~= AbsResolver {
                worklist: old(self)@.worklist + fresh_themes(pv, w0, v0),
                ..old(self)@
            });
        }
        self.exec_next_theme()
    }

    fn exec_advance_base(&mut self, theme: String, base: usize, pending: Vec<String>) -> (a:
        Action)
        requires
            old(self)@.bases.len() >= 1,
            base < old(self)@.bases.len(),
        ensures
            (final(self)@, a@) == advance_base(
                old(self)@,
                theme@,
                base as int,
                pending.deep_view(),
            ),
    {
        let n = self.bases.len();
        if base < n - 1 {
            let ip = build_index_path(self.bases[base + 1].as_str(), theme.as_str());
            proof {
                self.reads@ = self.reads@.push((theme@, base + 1));
            }
            self.phase = Phase::AwaitIndex { theme, base: base + 1, pending };
            let a = Action::ReadIndex(ip);
            proof {
                assert(self@ =~~= advance_base(
                    old(self)@,
                    theme@,
                    base as int,
                    pending.deep_view(),
                ).0);
            }
            a
        } else {
            self.exec_finish_theme(pending)
        }
    }

    /// Feeds the driver's answer to the machine and returns the next
    /// action. The machine follows the model's transition function
    /// exactly, and stays sound — in particular, it never asks for the
    /// same theme index twice, however the inheritance graph loops.
    pub fn step(&mut self, e: Event) -> (a: Action)
        requires
            old(self).wf(),
            old(self)@.accepts(e@),
        ensures
            (final(self)@, a@) == spec_step(old(self)@, e@),
            final(self).wf(),
    {
        proof {
            lemma_step_preserves_wf(self@, e@);
        }
        let ghost s0 = self@;
        let ghost e0 = e@;
        let ph: Phase = match &self.phase {
            Phase::AbsCheck => Phase::AbsCheck,
            Phase::AwaitIndex { theme, base, pending } => Phase::AwaitIndex {
                theme: theme.clone(),
                base: *base,
                pending: pending.clone(),
            },
            Phase::Probing { theme, base, pending, cands, at } => Phase::Probing {
                theme: theme.clone(),
                base: *base,
                pending: pending.clone(),
                cands: cands.clone(),
                at: *at,
            },
            Phase::PixmapProbing { cands, at } => Phase::PixmapProbing {
                cands: cands.clone(),
                at: *at,
            },
            Phase::BareProbing { cands, at } => Phase::BareProbing {
                cands: cands.clone(),
                at: *at,
            },
            Phase::Finished { result } => Phase::Finished { result: clone_opt(result) },
        };
        proof {
            broadcast use vstd::std_specs::vec::vec_clone_deep_view_proof;

            assert(phase_view(ph) =~~= s0.phase);
        }
        match (ph, e) {
            (Phase::AbsCheck, Event::FileExists(b)) => {
                if b {
                    let n = self.name.clone();
                    self.exec_done(Option::Some(n))
                } else {
                    self.exec_next_theme()
                }
            },
            (Phase::AwaitIndex { theme, base, pending }, Event::IndexContent(content)) => {
                match content {
                    Option::Some(text) => {
                        let d = parse_index_theme(text.as_str());
                        let ThemeDescriptor { directories, inherits } = d;
                        let td = build_theme_dir(self.bases[base].as_str(), theme.as_str());
                        let cands = build_theme_cands(
                            td.as_str(),
                            &directories,
                            self.name.as_str(),
                        );
                        let mut pending2 = pending;
                        let mut inh = inherits;
                        let ghost p2 = pending2.deep_view();
                        let ghost ih = inh.deep_view();
                        pending2.append(&mut inh);
                        proof {
                            assert(pending2.deep_view() =~= p2 + ih);
                        }
                        assert(cands.deep_view().len() >= 3);
                        let first = cands[0].clone();
                        self.phase = Phase::Probing { theme, base, pending: pending2, cands, at: 0 };
                        let a = Action::Probe(first);
                        proof {
                            assert(self@ =~~= spec_step(s0, e0).0);
                            assert(a@ =~~= spec_step(s0, e0).1);
                        }
                        a
                    },
                    Option::None => self.exec_advance_base(theme, base, pending),
                }
            },
            (Phase::Probing { theme, base, pending, cands, at }, Event::FileExists(b)) => {
                if b {
                    let p = cands[at].clone();
                    self.exec_done(Option::Some(p))
                } else if at + 1 < cands.len() {
                    let next = cands[at + 1].clone();
                    self.phase = Phase::Probing { theme, base, pending, cands, at: at + 1 };
                    let a = Action::Probe(next);
                    proof {
                        assert(self@ =~~= spec_step(s0, e0).0);
                        assert(a@ =~~= spec_step(s0, e0).1);
                    }
                    a
                } else {
                    self.exec_advance_base(theme, base, pending)
                }
            },
            (Phase::PixmapProbing { cands, at }, Event::FileExists(b)) => {
                if b {
                    let p = cands[at].clone();
                    self.exec_done(Option::Some(p))
                } else if at + 1 < cands.len() {
                    let next = cands[at + 1].clone();
                    self.phase = Phase::PixmapProbing { cands, at: at + 1 };
                    let a = Action::Probe(next);
                    proof {
                        assert(self@ =~~= spec_step(s0, e0).0);
                        assert(a@ =~~= spec_step(s0, e0).1);
                    }
                    a
                } else {
                    self.exec_enter_bare()
                }
            },
            (Phase::BareProbing { cands, at }, Event::FileExists(b)) => {
                if b {
                    let p = cands[at].clone();
                    self.exec_done(Option::Some(p))
                } else if at + 1 < cands.len() {
                    let next = cands[at + 1].clone();
                    self.phase = Phase::BareProbing { cands, at: at + 1 };
                    let a = Action::Probe(next);
                    proof {
                        assert(self@ =~~= spec_step(s0, e0).0);
                        assert(a@ =~~= spec_step(s0, e0).1);
                    }
                    a
                } else {
                    self.exec_done(Option::None)
                }
            },
            _ => {
                proof {
                    assert(false);
                }
                vstd::pervasive::unreached()
            },
        }
    }
}

} // verus!
