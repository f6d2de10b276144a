//! The mathematical model of a resolution in progress.
//!
//! A resolution is a dialogue: the resolver hands its driver an action
//! (probe a file, read a theme index), the driver answers with the outcome,
//! and the resolver moves to its next state. [`spec_step`] is the complete
//! transition function of that dialogue, so the executable machine can be
//! proved to follow it exactly, and properties of whole runs (no success
//! without a positive probe, no repeated index read even under cyclic
//! inheritance) are proved here once and for all.

use vstd::prelude::*;

use crate::candidates::{flat_cands, s_index_path, s_theme_dir, theme_cands};
use crate::theme_index::{directories_of, inherits_of};

verus! {

/// What the resolver asks its driver to do next.
#[verifier::ext_equal]
pub enum AbsAction {
    /// Ask whether this path names an existing file.
    Probe(Seq<char>),
    /// Ask for the text of this theme index file, absent if unreadable.
    ReadIndex(Seq<char>),
    /// The resolution is over, with the resolved path or a confirmed miss.
    Done(Option<Seq<char>>),
}

/// The driver's answer to the pending action.
#[verifier::ext_equal]
pub enum AbsEvent {
    /// Answer to a probe: the file exists, or it does not.
    FileExists(bool),
    /// Answer to an index read: the file's text, or nothing.
    IndexContent(Option<Seq<char>>),
}

/// Where the resolution stands, and what answer it is waiting for.
#[verifier::ext_equal]
pub enum AbsPhase {
    /// The icon name was an absolute path; awaiting its existence probe.
    AbsCheck,
    /// Awaiting the index text of `theme` under base directory `base`;
    /// `pending` holds the parents declared by bases already searched.
    AwaitIndex { theme: Seq<char>, base: int, pending: Seq<Seq<char>> },
    /// Probing the candidates of `theme` under base directory `base`.
    Probing {
        theme: Seq<char>,
        base: int,
        pending: Seq<Seq<char>>,
        cands: Seq<Seq<char>>,
        at: int,
    },
    /// Probing the flat pixmap fallback candidates.
    PixmapProbing { cands: Seq<Seq<char>>, at: int },
    /// Probing the bare base-directory fallback candidates.
    BareProbing { cands: Seq<Seq<char>>, at: int },
    /// Nothing left to do.
    Finished { result: Option<Seq<char>> },
}

/// The abstract state of a resolution.
#[verifier::ext_equal]
pub struct AbsResolver {
    /// The icon name being resolved.
    pub name: Seq<char>,
    /// The base data directories, highest priority first; never empty.
    pub bases: Seq<Seq<char>>,
    /// The flat pixmap fallback directories.
    pub pixmaps: Seq<Seq<char>>,
    /// Whether the last-resort bare base-directory tier is enabled.
    pub bare_base: bool,
    /// Themes waiting to be searched, nearest first.
    pub worklist: Seq<Seq<char>>,
    /// Themes already taken up, in order; never searched again.
    pub visited: Seq<Seq<char>>,
    /// Every `(theme, base index)` whose index file was requested so far.
    pub reads: Seq<(Seq<char>, int)>,
    /// Where the resolution stands.
    pub phase: AbsPhase,
}

impl AbsResolver {
    /// Does the state await this kind of answer?
    pub open spec fn accepts(self, e: AbsEvent) -> bool {
        match (self.phase, e) {
            (AbsPhase::AbsCheck, AbsEvent::FileExists(_)) => true,
            (AbsPhase::AwaitIndex { .. }, AbsEvent::IndexContent(_)) => true,
            (AbsPhase::Probing { .. }, AbsEvent::FileExists(_)) => true,
            (AbsPhase::PixmapProbing { .. }, AbsEvent::FileExists(_)) => true,
            (AbsPhase::BareProbing { .. }, AbsEvent::FileExists(_)) => true,
            _ => false,
        }
    }

    /// The path whose existence the state is asking about, if any.
    pub open spec fn awaited_probe(self) -> Option<Seq<char>> {
        match self.phase {
            AbsPhase::AbsCheck => Option::Some(self.name),
            AbsPhase::Probing { cands, at, .. } => Option::Some(cands[at]),
            AbsPhase::PixmapProbing { cands, at } => Option::Some(cands[at]),
            AbsPhase::BareProbing { cands, at } => Option::Some(cands[at]),
            _ => Option::None,
        }
    }

    /// Structural soundness: the worklist and the visited list never share
    /// a theme or repeat one, the read log never repeats a pair, every
    /// logged read belongs to a visited theme, and the phase's indices are
    /// in bounds.
    pub open spec fn wf(self) -> bool {
        &&& self.name.len() >= 1
        &&& self.bases.len() >= 1
        &&& self.worklist.no_duplicates()
        &&& self.visited.no_duplicates()
        &&& forall|t: Seq<char>|
            self.worklist.contains(t) ==> !(#[trigger] self.visited.contains(t))
        &&& self.reads.no_duplicates()
        &&& forall|i: int|
            0 <= i < self.reads.len() ==> self.visited.contains((#[trigger] self.reads[i]).0)
                && 0 <= self.reads[i].1 < self.bases.len()
        &&& self.phase_wf()
    }

    /// The phase-specific part of [`AbsResolver::wf`].
    pub open spec fn phase_wf(self) -> bool {
        match self.phase {
            AbsPhase::AbsCheck => true,
            AbsPhase::AwaitIndex { theme, base, .. } => {
                &&& 0 <= base < self.bases.len()
                &&& self.visited.contains(theme)
                &&& !self.worklist.contains(theme)
                &&& forall|i: int|
                    0 <= i < self.reads.len() && (#[trigger] self.reads[i]).0 == theme
                        ==> self.reads[i].1 <= base
            },
            AbsPhase::Probing { theme, base, cands, at, .. } => {
                &&& 0 <= base < self.bases.len()
                &&& 0 <= at < cands.len()
                &&& self.visited.contains(theme)
                &&& !self.worklist.contains(theme)
                &&& forall|i: int|
                    0 <= i < self.reads.len() && (#[trigger] self.reads[i]).0 == theme
                        ==> self.reads[i].1 <= base
            },
            AbsPhase::PixmapProbing { cands, at } => 0 <= at < cands.len(),
            AbsPhase::BareProbing { cands, at } => 0 <= at < cands.len(),
            AbsPhase::Finished { .. } => true,
        }
    }
}

/// The state with everything decided: the terminal transition.
pub open spec fn done_st(s: AbsResolver, res: Option<Seq<char>>) -> (AbsResolver, AbsAction) {
    (
        AbsResolver { phase: AbsPhase::Finished { result: res }, ..s },
        AbsAction::Done(res),
    )
}

/// Entry into the bare base-directory tier, or the final miss.
pub open spec fn enter_bare(s: AbsResolver) -> (AbsResolver, AbsAction) {
    if s.bare_base {
        let c = flat_cands(s.bases, s.name);
        if c.len() > 0 {
            (
                AbsResolver { phase: AbsPhase::BareProbing { cands: c, at: 0 }, ..s },
                AbsAction::Probe(c[0]),
            )
        } else {
            done_st(s, Option::None)
        }
    } else {
        done_st(s, Option::None)
    }
}

/// Entry into the pixmap fallback tier.
pub open spec fn enter_pixmaps(s: AbsResolver) -> (AbsResolver, AbsAction) {
    let c = flat_cands(s.pixmaps, s.name);
    if c.len() > 0 {
        (
            AbsResolver { phase: AbsPhase::PixmapProbing { cands: c, at: 0 }, ..s },
            AbsAction::Probe(c[0]),
        )
    } else {
        enter_bare(s)
    }
}

/// Taking up the next theme: the front of the worklist; once the worklist
/// — the hinted theme and everything reached through inheritance — is
/// exhausted, the universal `hicolor` terminus, unless it was already
/// searched; after that, the fallback tiers.
pub open spec fn next_theme(s: AbsResolver) -> (AbsResolver, AbsAction) {
    if s.worklist.len() > 0 {
        let t = s.worklist[0];
        let s2 = AbsResolver {
            worklist: s.worklist.drop_first(),
            visited: s.visited.push(t),
            reads: s.reads.push((t, 0)),
            phase: AbsPhase::AwaitIndex { theme: t, base: 0, pending: Seq::empty() },
            ..s
        };
        (s2, AbsAction::ReadIndex(s_index_path(s.bases[0], t)))
    } else if !s.visited.contains("hicolor"@) {
        let t = "hicolor"@;
        let s2 = AbsResolver {
            visited: s.visited.push(t),
            reads: s.reads.push((t, 0)),
            phase: AbsPhase::AwaitIndex { theme: t, base: 0, pending: Seq::empty() },
            ..s
        };
        (s2, AbsAction::ReadIndex(s_index_path(s.bases[0], t)))
    } else {
        enter_pixmaps(s)
    }
}

/// The declared parents that are new: not already visited, queued, or
/// repeated within the declaration itself; declaration order kept.
pub open spec fn fresh_themes(
    pending: Seq<Seq<char>>,
    worklist: Seq<Seq<char>>,
    visited: Seq<Seq<char>>,
) -> Seq<Seq<char>>
    decreases pending.len(),
{
    if pending.len() == 0 {
        Seq::empty()
    } else {
        let rest = fresh_themes(pending.drop_last(), worklist, visited);
        let t = pending.last();
        if worklist.contains(t) || visited.contains(t) || rest.contains(t) {
            rest
        } else {
            rest.push(t)
        }
    }
}

/// End of a theme: its declared parents join the worklist (new ones only,
/// declaration order kept) and the next theme is taken up.
pub open spec fn finish_theme(s: AbsResolver, pending: Seq<Seq<char>>) -> (
    AbsResolver,
    AbsAction,
) {
    let s2 = AbsResolver {
        worklist: s.worklist + fresh_themes(pending, s.worklist, s.visited),
        ..s
    };
    next_theme(s2)
}

/// The same theme under the next base directory, or its end.
pub open spec fn advance_base(
    s: AbsResolver,
    theme: Seq<char>,
    base: int,
    pending: Seq<Seq<char>>,
) -> (AbsResolver, AbsAction) {
    if base + 1 < s.bases.len() {
        let s2 = AbsResolver {
            reads: s.reads.push((theme, base + 1)),
            phase: AbsPhase::AwaitIndex { theme, base: base + 1, pending },
            ..s
        };
        (s2, AbsAction::ReadIndex(s_index_path(s.bases[base + 1], theme)))
    } else {
        finish_theme(s, pending)
    }
}

/// Reaction to an index read: a readable index yields that base's candidate
/// list and records the declared parents; an unreadable one contributes
/// nothing.
pub open spec fn on_index(
    s: AbsResolver,
    theme: Seq<char>,
    base: int,
    pending: Seq<Seq<char>>,
    content: Option<Seq<char>>,
) -> (AbsResolver, AbsAction) {
    match content {
        Option::Some(text) => {
            let c = theme_cands(s_theme_dir(s.bases[base], theme), directories_of(text), s.name);
            (
                AbsResolver {
                    phase: AbsPhase::Probing {
                        theme,
                        base,
                        pending: pending + inherits_of(text),
                        cands: c,
                        at: 0,
                    },
                    ..s
                },
                AbsAction::Probe(c[0]),
            )
        },
        Option::None => advance_base(s, theme, base, pending),
    }
}

/// The complete transition function: the successor state and the next
/// action, as a function of the state and the driver's answer alone.
pub open spec fn spec_step(s: AbsResolver, e: AbsEvent) -> (AbsResolver, AbsAction) {
    match (s.phase, e) {
        (AbsPhase::AbsCheck, AbsEvent::FileExists(b)) => {
            if b {
                done_st(s, Option::Some(s.name))
            } else {
                next_theme(s)
            }
        },
        (AbsPhase::AwaitIndex { theme, base, pending }, AbsEvent::IndexContent(c)) => on_index(
            s,
            theme,
            base,
            pending,
            c,
        ),
        (AbsPhase::Probing { theme, base, pending, cands, at }, AbsEvent::FileExists(b)) => {
            if b {
                done_st(s, Option::Some(cands[at]))
            } else if at + 1 < cands.len() {
                (
                    AbsResolver {
                        phase: AbsPhase::Probing { theme, base, pending, cands, at: at + 1 },
                        ..s
                    },
                    AbsAction::Probe(cands[at + 1]),
                )
            } else {
                advance_base(s, theme, base, pending)
            }
        },
        (AbsPhase::PixmapProbing { cands, at }, AbsEvent::FileExists(b)) => {
            if b {
                done_st(s, Option::Some(cands[at]))
            } else if at + 1 < cands.len() {
                (
                    AbsResolver { phase: AbsPhase::PixmapProbing { cands, at: at + 1 }, ..s },
                    AbsAction::Probe(cands[at + 1]),
                )
            } else {
                enter_bare(s)
            }
        },
        (AbsPhase::BareProbing { cands, at }, AbsEvent::FileExists(b)) => {
            if b {
                done_st(s, Option::Some(cands[at]))
            } else if at + 1 < cands.len() {
                (
                    AbsResolver { phase: AbsPhase::BareProbing { cands, at: at + 1 }, ..s },
                    AbsAction::Probe(cands[at + 1]),
                )
            } else {
                done_st(s, Option::None)
            }
        },
        _ => done_st(s, Option::None),
    }
}

/// The seed worklist: the hinted theme alone, when one is given. The
/// `hicolor` terminus is not queued here: it is taken up when the worklist
/// runs out, so it always comes after the whole inheritance chain and is
/// never searched twice, not even when it is the hint or is inherited.
pub open spec fn seed_worklist(hint: Option<Seq<char>>) -> Seq<Seq<char>> {
    match hint {
        Option::Some(h) => seq![h],
        Option::None => Seq::empty(),
    }
}

/// The initial state and first action of a resolution: the absolute-path
/// shortcut when the name is absolute, else the first theme's index read.
pub open spec fn spec_init(
    name: Seq<char>,
    hint: Option<Seq<char>>,
    bases: Seq<Seq<char>>,
    pixmaps: Seq<Seq<char>>,
    bare_base: bool,
) -> (AbsResolver, AbsAction) {
    let s = AbsResolver {
        name,
        bases,
        pixmaps,
        bare_base,
        worklist: seed_worklist(hint),
        visited: Seq::empty(),
        reads: Seq::empty(),
        phase: AbsPhase::AbsCheck,
    };
    if name[0] == '/' {
        (s, AbsAction::Probe(name))
    } else {
        next_theme(s)
    }
}

/// The outcome of feeding a sequence of answers to a state.
#[verifier::ext_equal]
pub enum RunOutcome {
    /// The answers ran out with the dialogue still open.
    Pending { state: AbsResolver },
    /// The dialogue ended with this result.
    Done { result: Option<Seq<char>> },
}

/// Runs the transition function over a whole answer sequence.
pub open spec fn spec_run(s: AbsResolver, evs: Seq<AbsEvent>) -> RunOutcome
    decreases evs.len(),
{
    if evs.len() == 0 {
        RunOutcome::Pending { state: s }
    } else {
        let r = spec_step(s, evs[0]);
        match r.1 {
            AbsAction::Done(res) => RunOutcome::Done { result: res },
            _ => spec_run(r.0, evs.drop_first()),
        }
    }
}

/// Idempotence: a resolution is a pure function of its inputs and the
/// driver's answers — two resolutions started with the same name, hint and
/// configuration and fed the same answers reach the same outcome. With an
/// unchanged filesystem the answers are determined by the questions, so a
/// repeated resolution returns the identical result.
pub proof fn lemma_resolution_deterministic(
    name: Seq<char>,
    hint: Option<Seq<char>>,
    bases: Seq<Seq<char>>,
    pixmaps: Seq<Seq<char>>,
    bare_base: bool,
    evs: Seq<AbsEvent>,
)
    ensures
        ({
            let first = spec_init(name, hint, bases, pixmaps, bare_base);
            let second = spec_init(name, hint, bases, pixmaps, bare_base);
            first == second && spec_run(first.0, evs) == spec_run(second.0, evs)
        }),
{
}

/// An answer that reports absence: a failed probe or an unreadable index.
pub open spec fn negative(e: AbsEvent) -> bool {
    match e {
        AbsEvent::FileExists(b) => !b,
        AbsEvent::IndexContent(c) => c is None,
    }
}

/// Membership in a concatenation is membership in either part.
pub proof fn lemma_contains_concat<A>(a: Seq<A>, b: Seq<A>, x: A)
    ensures
        (a + b).contains(x) <==> (a.contains(x) || b.contains(x)),
{
    if a.contains(x) {
        let i = choose|i: int| 0 <= i < a.len() && a[i] == x;
        assert((a + b)[i] == x);
    }
    if b.contains(x) {
        let i = choose|i: int| 0 <= i < b.len() && b[i] == x;
        assert((a + b)[a.len() + i] == x);
    }
    if (a + b).contains(x) {
        let i = choose|i: int| 0 <= i < (a + b).len() && (a + b)[i] == x;
        if i < a.len() {
            assert(a[i] == x);
        } else {
            assert(b[i - a.len()] == x);
        }
    }
}

/// Absolute-path shortcut: an absolute icon name is probed as it stands,
/// before any theme search; when the driver confirms it exists, it is
/// returned unchanged, and no theme index was ever read.
pub proof fn lemma_absolute_shortcut(
    name: Seq<char>,
    hint: Option<Seq<char>>,
    bases: Seq<Seq<char>>,
    pixmaps: Seq<Seq<char>>,
    bare_base: bool,
)
    requires
        name.len() >= 1,
        name[0] == '/',
    ensures
        ({
            let (s, a) = spec_init(name, hint, bases, pixmaps, bare_base);
            &&& a == AbsAction::Probe(name)
            &&& s.reads.len() == 0
            &&& spec_step(s, AbsEvent::FileExists(true)).1 == AbsAction::Done(
                Option::Some(name),
            )
            &&& spec_step(s, AbsEvent::FileExists(true)).0.reads.len() == 0
        }),
{
}

/// Hint priority: with a hint and a non-absolute name, the first thing a
/// resolution does is search the hinted theme — its index is read under
/// the highest-priority base directory — and `hicolor` is not even
/// queued: it only comes up when the hint's whole inheritance chain is
/// exhausted.
pub proof fn lemma_hint_theme_first(
    name: Seq<char>,
    hint: Seq<char>,
    bases: Seq<Seq<char>>,
    pixmaps: Seq<Seq<char>>,
    bare_base: bool,
)
    requires
        name.len() >= 1,
        name[0] != '/',
        bases.len() >= 1,
    ensures
        ({
            let (s, a) = spec_init(name, Option::Some(hint), bases, pixmaps, bare_base);
            &&& a == AbsAction::ReadIndex(s_index_path(bases[0], hint))
            &&& s.visited == seq![hint]
            &&& s.worklist == Seq::<Seq<char>>::empty()
            &&& s.phase == (AbsPhase::AwaitIndex { theme: hint, base: 0, pending: Seq::empty() })
        }),
{
    let seed = seed_worklist(Option::Some(hint));
    assert(seed == seq![hint]);
    assert(Seq::<Seq<char>>::empty().push(hint) =~= seq![hint]);
    assert(seed.drop_first() =~= Seq::<Seq<char>>::empty());
}

proof fn lemma_contains_push<A>(s: Seq<A>, v: A, x: A)
    ensures
        s.push(v).contains(x) <==> (s.contains(x) || x == v),
{
    if s.contains(x) {
        let i = choose|i: int| 0 <= i < s.len() && s[i] == x;
        assert(s.push(v)[i] == x);
    }
    assert(s.push(v)[s.len() as int] == v);
    if s.push(v).contains(x) {
        let i = choose|i: int| 0 <= i < s.push(v).len() && s.push(v)[i] == x;
        if i < s.len() {
            assert(s[i] == x);
        }
    }
}

proof fn lemma_fresh_themes_sound(
    pending: Seq<Seq<char>>,
    worklist: Seq<Seq<char>>,
    visited: Seq<Seq<char>>,
)
    ensures
        forall|x: Seq<char>|
            #[trigger] fresh_themes(pending, worklist, visited).contains(x) ==> !worklist.contains(
                x,
            ) && !visited.contains(x),
        fresh_themes(pending, worklist, visited).no_duplicates(),
    decreases pending.len(),
{
    if pending.len() > 0 {
        lemma_fresh_themes_sound(pending.drop_last(), worklist, visited);
        let rest = fresh_themes(pending.drop_last(), worklist, visited);
        let t = pending.last();
        if !(worklist.contains(t) || visited.contains(t) || rest.contains(t)) {
            assert forall|x: Seq<char>|
                #[trigger] rest.push(t).contains(x) implies !worklist.contains(x)
                && !visited.contains(x) by {
                lemma_contains_push(rest, t, x);
            }
            assert forall|i: int, j: int|
                0 <= i < rest.push(t).len() && 0 <= j < rest.push(t).len() && i != j implies rest
                .push(t)[i] != rest.push(t)[j] by {
                if i < rest.len() && j < rest.len() {
                } else if i == rest.len() {
                    assert(rest[j] != t) by {
                        if rest[j] == t {
                            assert(rest.contains(t));
                        }
                    }
                } else {
                    assert(rest[i] != t) by {
                        if rest[i] == t {
                            assert(rest.contains(t));
                        }
                    }
                }
            }
        }
    }
}

proof fn lemma_concat_no_duplicates<A>(a: Seq<A>, b: Seq<A>)
    requires
        a.no_duplicates(),
        b.no_duplicates(),
        forall|x: A| #[trigger] b.contains(x) ==> !a.contains(x),
    ensures
        (a + b).no_duplicates(),
{
    assert forall|i: int, j: int|
        0 <= i < (a + b).len() && 0 <= j < (a + b).len() && i != j implies (a + b)[i] != (a
        + b)[j] by {
        if i < a.len() && j < a.len() {
        } else if i >= a.len() && j >= a.len() {
            assert(b[i - a.len()] != b[j - a.len()]);
        } else if i < a.len() && j >= a.len() {
            if (a + b)[i] == (a + b)[j] {
                assert(b.contains(b[j - a.len()]));
                assert(a.contains(a[i]));
            }
        } else {
            if (a + b)[i] == (a + b)[j] {
                assert(b.contains(b[i - a.len()]));
                assert(a.contains(a[j]));
            }
        }
    }
}

proof fn lemma_enter_bare_wf(s: AbsResolver)
    requires
        s.wf(),
    ensures
        enter_bare(s).0.wf(),
        enter_bare(s).0.reads == s.reads,
{
}

proof fn lemma_enter_pixmaps_wf(s: AbsResolver)
    requires
        s.wf(),
    ensures
        enter_pixmaps(s).0.wf(),
        enter_pixmaps(s).0.reads == s.reads,
{
}

proof fn lemma_next_theme_wf(s: AbsResolver)
    requires
        s.wf(),
    ensures
        next_theme(s).0.wf(),
        s.reads.is_prefix_of(next_theme(s).0.reads),
{
    if s.worklist.len() > 0 {
        let t = s.worklist[0];
        let s2 = next_theme(s).0;
        assert(s.worklist.contains(t));
        assert(!s.visited.contains(t));
        assert(s2.worklist =~= s.worklist.drop_first());
        assert forall|i: int, j: int|
            0 <= i < s2.worklist.len() && 0 <= j < s2.worklist.len() && i != j implies s2
            .worklist[i] != s2.worklist[j] by {
            assert(s.worklist[i + 1] != s.worklist[j + 1]);
        }
        assert forall|x: Seq<char>|
            s2.worklist.contains(x) implies !(#[trigger] s2.visited.contains(x)) by {
            let i = choose|i: int| 0 <= i < s2.worklist.len() && s2.worklist[i] == x;
            assert(s.worklist[i + 1] == x);
            assert(s.worklist.contains(x));
            assert(!s.visited.contains(x));
            assert(x != t) by {
                assert(s.worklist[0] == t);
            }
            lemma_contains_push(s.visited, t, x);
        }
        assert forall|i: int, j: int|
            0 <= i < s2.visited.len() && 0 <= j < s2.visited.len() && i != j implies s2.visited[i]
            != s2.visited[j] by {
            if i < s.visited.len() && j < s.visited.len() {
            } else if i == s.visited.len() {
                if s.visited[j] == t {
                    assert(s.visited.contains(t));
                }
            } else if j == s.visited.len() {
                if s.visited[i] == t {
                    assert(s.visited.contains(t));
                }
            }
        }
        assert forall|i: int|
            0 <= i < s2.reads.len() implies s2.visited.contains((#[trigger] s2.reads[i]).0) && 0
            <= s2.reads[i].1 < s2.bases.len() by {
            if i < s.reads.len() {
                assert(s.visited.contains(s.reads[i].0));
                lemma_contains_push(s.visited, t, s.reads[i].0);
            } else {
                assert(s2.reads[i] == (t, 0int));
                lemma_contains_push(s.visited, t, t);
            }
        }
        assert forall|i: int, j: int|
            0 <= i < s2.reads.len() && 0 <= j < s2.reads.len() && i != j implies s2.reads[i] != s2
            .reads[j] by {
            if i < s.reads.len() && j < s.reads.len() {
            } else if i == s.reads.len() {
                if s.reads[j].0 == t {
                    assert(s.visited.contains(t));
                }
            } else if j == s.reads.len() {
                if s.reads[i].0 == t {
                    assert(s.visited.contains(t));
                }
            }
        }
        assert(s2.visited.contains(t)) by {
            lemma_contains_push(s.visited, t, t);
        }
        assert(!s2.worklist.contains(t)) by {
            if s2.worklist.contains(t) {
                let i = choose|i: int| 0 <= i < s2.worklist.len() && s2.worklist[i] == t;
                assert(s.worklist[i + 1] == t);
                assert(s.worklist[0] == t);
            }
        }
        assert forall|i: int|
            0 <= i < s2.reads.len() && (#[trigger] s2.reads[i]).0 == t implies s2.reads[i].1
            <= 0 by {
            if i < s.reads.len() {
                assert(s.visited.contains(s.reads[i].0));
            }
        }
        assert(s.reads.is_prefix_of(s2.reads)) by {
            assert(s2.reads.subrange(0, s.reads.len() as int) =~= s.reads);
        }
    } else if !s.visited.contains("hicolor"@) {
        let t = "hicolor"@;
        let s2 = next_theme(s).0;
        assert forall|i: int, j: int|
            0 <= i < s2.visited.len() && 0 <= j < s2.visited.len() && i != j implies s2.visited[i]
            != s2.visited[j] by {
            if i < s.visited.len() && j < s.visited.len() {
            } else if i == s.visited.len() {
                if s.visited[j] == t {
                    assert(s.visited.contains(t));
                }
            } else if j == s.visited.len() {
                if s.visited[i] == t {
                    assert(s.visited.contains(t));
                }
            }
        }
        assert forall|x: Seq<char>|
            s2.worklist.contains(x) implies !(#[trigger] s2.visited.contains(x)) by {
            let i = choose|i: int| 0 <= i < s2.worklist.len() && s2.worklist[i] == x;
        }
        assert forall|i: int|
            0 <= i < s2.reads.len() implies s2.visited.contains((#[trigger] s2.reads[i]).0) && 0
            <= s2.reads[i].1 < s2.bases.len() by {
            if i < s.reads.len() {
                assert(s.visited.contains(s.reads[i].0));
                lemma_contains_push(s.visited, t, s.reads[i].0);
            } else {
                assert(s2.reads[i] == (t, 0int));
                lemma_contains_push(s.visited, t, t);
            }
        }
        assert forall|i: int, j: int|
            0 <= i < s2.reads.len() && 0 <= j < s2.reads.len() && i != j implies s2.reads[i] != s2
            .reads[j] by {
            if i == s.reads.len() && j < s.reads.len() {
                if s.reads[j].0 == t {
                    assert(s.visited.contains(t));
                }
            } else if j == s.reads.len() && i < s.reads.len() {
                if s.reads[i].0 == t {
                    assert(s.visited.contains(t));
                }
            }
        }
        assert(s2.visited.contains(t)) by {
            lemma_contains_push(s.visited, t, t);
        }
        assert forall|i: int|
            0 <= i < s2.reads.len() && (#[trigger] s2.reads[i]).0 == t implies s2.reads[i].1
            <= 0 by {
            if i < s.reads.len() {
                assert(s.visited.contains(s.reads[i].0));
            }
        }
        assert(s.reads.is_prefix_of(s2.reads)) by {
            assert(s2.reads.subrange(0, s.reads.len() as int) =~= s.reads);
        }
    } else {
        lemma_enter_pixmaps_wf(s);
        assert(s.reads.is_prefix_of(s.reads)) by {
            assert(s.reads.subrange(0, s.reads.len() as int) =~= s.reads);
        }
    }
}

proof fn lemma_finish_theme_wf(s: AbsResolver, pending: Seq<Seq<char>>)
    requires
        s.wf(),
        match s.phase {
            AbsPhase::AwaitIndex { theme, .. } => s.visited.contains(theme),
            AbsPhase::Probing { theme, .. } => s.visited.contains(theme),
            _ => true,
        },
    ensures
        finish_theme(s, pending).0.wf(),
        s.reads.is_prefix_of(finish_theme(s, pending).0.reads),
{
    let f = fresh_themes(pending, s.worklist, s.visited);
    let s2 = AbsResolver { worklist: s.worklist + f, ..s };
    lemma_fresh_themes_sound(pending, s.worklist, s.visited);
    lemma_concat_no_duplicates(s.worklist, f);
    assert forall|x: Seq<char>|
        s2.worklist.contains(x) implies !(#[trigger] s2.visited.contains(x)) by {
        lemma_contains_concat(s.worklist, f, x);
    }
    assert(s2.phase_wf()) by {
        match s2.phase {
            AbsPhase::AwaitIndex { theme, .. } => {
                lemma_contains_concat(s.worklist, f, theme);
            },
            AbsPhase::Probing { theme, .. } => {
                lemma_contains_concat(s.worklist, f, theme);
            },
            _ => {},
        }
    }
    assert(s2.wf());
    lemma_next_theme_wf(s2);
}

proof fn lemma_advance_base_wf(s: AbsResolver, theme: Seq<char>, base: int, pending: Seq<
    Seq<char>,
>)
    requires
        s.wf(),
        0 <= base < s.bases.len(),
        s.visited.contains(theme),
        !s.worklist.contains(theme),
        forall|i: int|
            0 <= i < s.reads.len() && (#[trigger] s.reads[i]).0 == theme ==> s.reads[i].1 <= base,
    ensures
        advance_base(s, theme, base, pending).0.wf(),
        s.reads.is_prefix_of(advance_base(s, theme, base, pending).0.reads),
{
    if base + 1 < s.bases.len() {
        let s2 = advance_base(s, theme, base, pending).0;
        assert forall|i: int, j: int|
            0 <= i < s2.reads.len() && 0 <= j < s2.reads.len() && i != j implies s2.reads[i] != s2
            .reads[j] by {
            if i == s.reads.len() && j < s.reads.len() {
                if s.reads[j] == (theme, base + 1) {
                    assert(s.reads[j].1 <= base);
                }
            } else if j == s.reads.len() && i < s.reads.len() {
                if s.reads[i] == (theme, base + 1) {
                    assert(s.reads[i].1 <= base);
                }
            }
        }
        assert(s.reads.is_prefix_of(s2.reads)) by {
            assert(s2.reads.subrange(0, s.reads.len() as int) =~= s.reads);
        }
    } else {
        lemma_finish_theme_wf(s, pending);
    }
}

/// Every step from a sound, answerable state lands in a sound state, only
/// appends to the read log, and keeps that log duplicate-free: even a
/// cyclic or diamond-shaped inheritance graph never has a theme's index
/// read twice, and a resolution never revisits a theme.
pub proof fn lemma_step_preserves_wf(s: AbsResolver, e: AbsEvent)
    requires
        s.wf(),
        s.accepts(e),
    ensures
        spec_step(s, e).0.wf(),
        s.reads.is_prefix_of(spec_step(s, e).0.reads),
        spec_step(s, e).0.reads.no_duplicates(),
{
    let refl = s.reads.subrange(0, s.reads.len() as int);
    assert(refl =~= s.reads);
    match (s.phase, e) {
        (AbsPhase::AbsCheck, AbsEvent::FileExists(b)) => {
            if !b {
                lemma_next_theme_wf(s);
            }
        },
        (AbsPhase::AwaitIndex { theme, base, pending }, AbsEvent::IndexContent(c)) => {
            match c {
                Option::Some(_) => {},
                Option::None => {
                    lemma_advance_base_wf(s, theme, base, pending);
                },
            }
        },
        (AbsPhase::Probing { theme, base, pending, cands, at }, AbsEvent::FileExists(b)) => {
            if !b && !(at + 1 < cands.len()) {
                lemma_advance_base_wf(s, theme, base, pending);
            }
        },
        (AbsPhase::PixmapProbing { cands, at }, AbsEvent::FileExists(b)) => {
            if !b && !(at + 1 < cands.len()) {
                lemma_enter_bare_wf(s);
            }
        },
        (AbsPhase::BareProbing { .. }, AbsEvent::FileExists(_)) => {},
        _ => {},
    }
}

/// A fresh resolution starts sound, with an empty read log.
pub proof fn lemma_init_wf(
    name: Seq<char>,
    hint: Option<Seq<char>>,
    bases: Seq<Seq<char>>,
    pixmaps: Seq<Seq<char>>,
    bare_base: bool,
)
    requires
        name.len() >= 1,
        bases.len() >= 1,
    ensures
        spec_init(name, hint, bases, pixmaps, bare_base).0.wf(),
{
    let s = AbsResolver {
        name,
        bases,
        pixmaps,
        bare_base,
        worklist: seed_worklist(hint),
        visited: Seq::empty(),
        reads: Seq::empty(),
        phase: AbsPhase::AbsCheck,
    };
    assert(s.wf());
    if !(name[0] == '/') {
        lemma_next_theme_wf(s);
    }
}

/// A resolution only succeeds on a positive probe: whenever a step answers
/// `Done(Some(p))`, the driver just confirmed that `p` — the very path the
/// state was asking about — exists.
pub proof fn lemma_hit_needs_positive_probe(s: AbsResolver, e: AbsEvent)
    ensures
        forall|p: Seq<char>|
            spec_step(s, e).1 == AbsAction::Done(Option::Some(p)) ==> e == AbsEvent::FileExists(
                true,
            ) && s.awaited_probe() == Option::Some(p),
{
}

/// An icon that is nowhere to be found is reported absent: a run whose
/// every answer is negative can never end in a resolved path.
pub proof fn lemma_all_negative_never_resolves(s: AbsResolver, evs: Seq<AbsEvent>)
    requires
        forall|i: int| 0 <= i < evs.len() ==> negative(#[trigger] evs[i]),
    ensures
        !(spec_run(s, evs) matches RunOutcome::Done { result: Option::Some(_) }),
    decreases evs.len(),
{
    if evs.len() > 0 {
        let r = spec_step(s, evs[0]);
        lemma_hit_needs_positive_probe(s, evs[0]);
        match r.1 {
            AbsAction::Done(res) => {
                assert(negative(evs[0]));
            },
            _ => {
                assert(forall|i: int|
                    0 <= i < evs.drop_first().len() ==> negative(#[trigger] evs.drop_first()[i]));
                lemma_all_negative_never_resolves(r.0, evs.drop_first());
            },
        }
    }
}

} // verus!
