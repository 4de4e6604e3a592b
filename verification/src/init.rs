//! The `init` run: error taxonomy, captured command options, the
//! only/skip merge rule, and the plugin execution pipeline.
//!
//! The pipeline is a state machine: an unverified driver asks for the next
//! [`Action`], performs it (configuration I/O, spawning a plugin, opening an
//! editor), and reports the observed [`Event`]; the machine decides what
//! happens next. Plugins run strictly in registry order, the config
//! bootstrap happens once before any of them, the first plugin failure
//! aborts the rest, and an editor failure is kept distinct from a
//! generation failure.

use crate::opts::{Clobbering, OpenIn};
use crate::steps::{
    lemma_and_not_bit, low_mask, names_wf, nth_bit, Registry, StepNotRegistered, Steps,
};
use vstd::prelude::*;
use vstd::string::StringExecFns;

verus! {

/// A terminal failure of the `init` run.
#[derive(Debug)]
pub enum Error {
    /// An entry of the `only` list names an unregistered step.
    OnlyParseFailed(StepNotRegistered),
    /// An entry of the `skip` list names an unregistered step.
    SkipParseFailed(StepNotRegistered),
    /// The step set and the plugin list disagree on the vocabulary; this
    /// signals an internal consistency bug and is proved unreachable for
    /// sets built from the plugin list's own registry.
    StepNotRegistered(StepNotRegistered),
    /// Loading the existing project configuration failed.
    ConfigLoadFailed(String),
    /// Generating a fresh project configuration failed.
    ConfigGenFailed(String),
    /// A plugin invocation failed; nothing after it ran.
    PluginFailed { plugin_name: String, cause: String },
    /// The editor launch failed; the project itself generated successfully.
    OpenInEditorFailed(String),
}

/// What [`Error::message`] returns, character for character.
pub open spec fn message_view(e: Error) -> Seq<char> {
    match e {
        Error::OnlyParseFailed(f) => "Failed to parse `only` step list: "@ + ("step \""@ + f.name@
            + "\" not registered"@),
        Error::SkipParseFailed(f) => "Failed to parse `skip` step list: "@ + ("step \""@ + f.name@
            + "\" not registered"@),
        Error::StepNotRegistered(f) => "step \""@ + f.name@ + "\" not registered"@,
        Error::ConfigLoadFailed(c) => c@,
        Error::ConfigGenFailed(c) => "Failed to generate config: "@ + c@,
        Error::PluginFailed { plugin_name, cause } => "Failed to init \""@ + plugin_name@
            + "\" plugin: "@ + cause@,
        Error::OpenInEditorFailed(c) =>
        "Failed to open project in editor (your project generated successfully though, so no worries!): "@
            + c@,
    }
}

impl Error {
    /// Human-readable message. The editor-failure wording is softened: by
    /// then the project itself has already generated successfully.
    pub fn message(&self) -> (r: String)
        ensures
            r@ == message_view(*self),
    {
        match self {
            Error::OnlyParseFailed(f) => {
                let m = f.message();
                let r = String::from_str("Failed to parse `only` step list: ").concat(m.as_str());
                proof {
                    assert(r@ =~= message_view(*self));
                }
                r
            },
            Error::SkipParseFailed(f) => {
                let m = f.message();
                let r = String::from_str("Failed to parse `skip` step list: ").concat(m.as_str());
                proof {
                    assert(r@ =~= message_view(*self));
                }
                r
            },
            Error::StepNotRegistered(f) => f.message(),
            Error::ConfigLoadFailed(c) => c.clone(),
            Error::ConfigGenFailed(c) => {
                let r = String::from_str("Failed to generate config: ").concat(c.as_str());
                r
            },
            Error::PluginFailed { plugin_name, cause } => {
                let r = String::from_str("Failed to init \"").concat(plugin_name.as_str()).concat(
                    "\" plugin: ",
                ).concat(cause.as_str());
                proof {
                    assert(r@ =~= message_view(*self));
                }
                r
            },
            Error::OpenInEditorFailed(c) => {
                let r = String::from_str(
                    "Failed to open project in editor (your project generated successfully though, so no worries!): ",
                ).concat(c.as_str());
                r
            },
        }
    }
}

/// The `init` subcommand's options, captured once from user input and
/// immutable thereafter.
#[derive(Debug)]
pub struct Command {
    pub clobbering: Clobbering,
    pub open_in: OpenIn,
    pub only: Option<Vec<String>>,
    pub skip: Option<Vec<String>>,
}

impl Command {
    pub fn new(
        clobbering: Clobbering,
        open_in: OpenIn,
        only: Option<Vec<String>>,
        skip: Option<Vec<String>>,
    ) -> (r: Command)
        ensures
            r.clobbering == clobbering,
            r.open_in == open_in,
            r.only == only,
            r.skip == skip,
    {
        Command { clobbering, open_in, only, skip }
    }
}

/// The first occurrence of each name, in order; later duplicates dropped.
pub open spec fn dedup_first(names: Seq<Seq<char>>) -> Seq<Seq<char>>
    decreases names.len(),
{
    if names.len() == 0 {
        Seq::empty()
    } else {
        let rest = dedup_first(names.drop_last());
        if rest.contains(names.last()) {
            rest
        } else {
            rest.push(names.last())
        }
    }
}

/// A registry built from pairwise-distinct names keeps every name: each of
/// the `N` names gets its own position in `[0, N)`, in list order.
pub proof fn lemma_dedup_first_of_distinct(names: Seq<Seq<char>>)
    requires
        forall|i: int, j: int| 0 <= i < j < names.len() ==> names[i] != names[j],
    ensures
        dedup_first(names) == names,
    decreases names.len(),
{
    if names.len() == 0 {
        assert(dedup_first(names) =~= names);
    } else {
        lemma_dedup_first_of_distinct(names.drop_last());
        if names.drop_last().contains(names.last()) {
            let i = choose|i: int|
                0 <= i < names.drop_last().len() && names.drop_last()[i] == names.last();
            assert(names[i] == names[names.len() - 1]);
            assert(false);
        }
        assert(names.drop_last().push(names.last()) =~= names);
    }
}

/// Registers every name of `names` in order, so that each plugin gets the
/// position it was discovered at; a repeated name keeps its first position.
pub fn build_registry(names: &Vec<String>) -> (r: Registry)
    requires
        names@.len() <= 64,
    ensures
        r.wf(),
        r@ == dedup_first(names.deep_view()),
        names_wf(names.deep_view()) ==> r@ == names.deep_view(),
{
    let mut r = Registry::new();
    proof {
        assert(r@ =~= dedup_first(names.deep_view().take(0)));
    }
    let n: usize = names.len();
    let mut k: usize = 0;
    while k < n
        invariant
            r.wf(),
            n == names@.len(),
            n <= 64,
            k <= n,
            r@ == dedup_first(names.deep_view().take(k as int)),
            r@.len() <= k,
        decreases n - k,
    {
        let name = names[k].clone();
        proof {
            assert(name@ == names.deep_view()[k as int]);
            assert(names.deep_view().take(k + 1).drop_last() =~= names.deep_view().take(k as int));
            assert(names.deep_view().take(k + 1).last() == names.deep_view()[k as int]);
        }
        r.register(name);
        k += 1;
    }
    proof {
        assert(names.deep_view().take(n as int) =~= names.deep_view());
        if names_wf(names.deep_view()) {
            lemma_dedup_first_of_distinct(names.deep_view());
        }
    }
    r
}

/// The optional name lists as sequences of character sequences.
pub open spec fn opt_names(l: Option<&Vec<String>>) -> Option<Seq<Seq<char>>> {
    match l {
        Some(v) => Some(v.deep_view()),
        None => None,
    }
}

/// Every name of `names` is registered.
pub open spec fn names_known(reg: Seq<Seq<char>>, names: Seq<Seq<char>>) -> bool {
    forall|k: int| 0 <= k < names.len() ==> reg.contains(#[trigger] names[k])
}

/// Every name of the (optional) list is registered.
pub open spec fn list_known(reg: Seq<Seq<char>>, l: Option<Seq<Seq<char>>>) -> bool {
    match l {
        Some(names) => names_known(reg, names),
        None => true,
    }
}

proof fn lemma_not_known(reg: Seq<Seq<char>>, names: Seq<Seq<char>>, k: int)
    requires
        0 <= k < names.len(),
        !reg.contains(names[k]),
    ensures
        !list_known(reg, Some(names)),
{
    if names_known(reg, names) {
        assert(reg.contains(names[k]));
    }
}

/// `name` is the first entry of `names` that is not registered.
pub open spec fn first_unknown(reg: Seq<Seq<char>>, names: Seq<Seq<char>>, name: Seq<char>) -> bool {
    exists|k: int|
        {
            &&& 0 <= k < names.len()
            &&& name == names[k]
            &&& !reg.contains(names[k])
            &&& forall|j: int| 0 <= j < k ==> reg.contains(names[j])
        }
}

/// The merge rule for one position: the step at `i` runs iff it is present
/// in `only` (or no `only` list was given, which defaults to everything)
/// and absent from `skip`. A name in both lists is skipped: `skip` wins.
pub open spec fn merged_included(
    reg: Seq<Seq<char>>,
    only: Option<Seq<Seq<char>>>,
    skip: Option<Seq<Seq<char>>>,
    i: int,
) -> bool {
    &&& (match only {
        Some(o) => o.contains(reg[i]),
        None => true,
    })
    &&& (match skip {
        Some(s) => !s.contains(reg[i]),
        None => true,
    })
}

/// Skip always wins: a step named in the skip list is excluded from the
/// merge even when the only list names it too.
pub proof fn lemma_skip_wins(
    reg: Seq<Seq<char>>,
    only: Seq<Seq<char>>,
    skip: Seq<Seq<char>>,
    i: int,
)
    requires
        0 <= i < reg.len(),
        skip.contains(reg[i]),
    ensures
        !merged_included(reg, Some(only), Some(skip), i),
        !merged_included(reg, None, Some(skip), i),
{
}

/// Merges the optional `only` and `skip` name lists into the final step set
/// over `registry`. The `only` list is validated first, then the `skip`
/// list; the bitwise NOT of the skip pattern is masked to the registry's
/// width, so no width beyond it leaks into the result.
pub fn select_steps<'a>(
    registry: &'a Registry,
    only: Option<&Vec<String>>,
    skip: Option<&Vec<String>>,
) -> (r: Result<Steps<'a>, Error>)
    requires
        registry.wf(),
    ensures
        r is Ok <==> (list_known(registry@, opt_names(only)) && list_known(
            registry@,
            opt_names(skip),
        )),
        match r {
            Ok(s) => {
                &&& s.spec_registry() == registry@
                &&& s.wf()
                &&& forall|i: int|
                    0 <= i < registry@.len() ==> (s.included(i) <==> merged_included(
                        registry@,
                        opt_names(only),
                        opt_names(skip),
                        i,
                    ))
            },
            Err(e) => match e {
                Error::OnlyParseFailed(f) => opt_names(only) matches Some(o) && first_unknown(
                    registry@,
                    o,
                    f.name@,
                ),
                Error::SkipParseFailed(f) => list_known(registry@, opt_names(only)) && (opt_names(
                    skip,
                ) matches Some(sk) && first_unknown(registry@, sk, f.name@)),
                _ => false,
            },
        },
{
    let only_steps = match only {
        Some(list) => match Steps::parse(registry, list) {
            Ok(s) => s,
            Err(e) => {
                proof {
                    let dv = list.deep_view();
                    let k = choose|k: int|
                        {
                            &&& 0 <= k < dv.len()
                            &&& e.name@ == dv[k]
                            &&& !registry@.contains(dv[k])
                            &&& forall|j: int| 0 <= j < k ==> registry@.contains(dv[j])
                        };
                    assert(0 <= k < dv.len() && !registry@.contains(dv[k]));
                    assert(opt_names(only) == Some(dv));
                    assert(first_unknown(registry@, dv, e.name@));
                    lemma_not_known(registry@, dv, k);
                }
                return Err(Error::OnlyParseFailed(e));
            },
        },
        None => Steps::new_all_set(registry),
    };
    let skip_steps = match skip {
        Some(list) => match Steps::parse(registry, list) {
            Ok(s) => s,
            Err(e) => {
                proof {
                    let dv = list.deep_view();
                    let k = choose|k: int|
                        {
                            &&& 0 <= k < dv.len()
                            &&& e.name@ == dv[k]
                            &&& !registry@.contains(dv[k])
                            &&& forall|j: int| 0 <= j < k ==> registry@.contains(dv[j])
                        };
                    assert(0 <= k < dv.len() && !registry@.contains(dv[k]));
                    assert(opt_names(skip) == Some(dv));
                    assert(first_unknown(registry@, dv, e.name@));
                    lemma_not_known(registry@, dv, k);
                }
                return Err(Error::SkipParseFailed(e));
            },
        },
        None => Steps::new_all_unset(registry),
    };
    let n: usize = registry.size();
    let mask = low_mask(n);
    let ob = only_steps.bits();
    let sb = skip_steps.bits();
    let merged: u64 = ob & (!sb & mask);
    proof {
        assert forall|i: int| registry@.len() <= i < 64 implies !nth_bit(merged, i) by {
            lemma_and_not_bit(ob, sb, mask, i);
        }
    }
    let s = Steps::from_bits(registry, merged);
    proof {
        assert forall|i: int| 0 <= i < registry@.len() implies (s.included(i) <==> merged_included(
            registry@,
            opt_names(only),
            opt_names(skip),
            i,
        )) by {
            lemma_and_not_bit(ob, sb, mask, i);
            assert(only_steps.included(i) == nth_bit(ob, i));
            assert(skip_steps.included(i) == nth_bit(sb, i));
        }
    }
    Ok(s)
}

/// The argument list handed to every selected plugin: the base command
/// token, plus `--force` when clobbering is allowed.
pub fn init_args(clobbering: Clobbering) -> (r: Vec<String>)
    ensures
        r.deep_view() == if clobbering is Allow {
            seq!["init"@, "--force"@]
        } else {
            seq!["init"@]
        },
{
    let mut args: Vec<String> = Vec::new();
    args.push(String::from_str("init"));
    match clobbering {
        Clobbering::Allow => {
            args.push(String::from_str("--force"));
            proof {
                assert(args.deep_view() =~= seq!["init"@, "--force"@]);
            }
        },
        Clobbering::Forbid => {
            proof {
                assert(args.deep_view() =~= seq!["init"@]);
            }
        },
    }
    args
}

/// What the pipeline's driver must do next.
#[derive(Clone, Copy, Debug, PartialEq, Eq, Structural)]
pub enum Action {
    /// Try to load an existing project configuration.
    LoadConfig,
    /// Generate and persist a configuration, since none was found.
    GenerateConfig,
    /// Invoke the plugin at this registry position and wait for it.
    RunPlugin { index: usize },
    /// Open the generated project in an editor.
    OpenEditor,
    /// Nothing is left to do; take the outcome.
    Stop,
}

/// What the driver observed after performing the requested action.
#[derive(Debug)]
pub enum Event {
    ConfigLoaded { found: bool },
    ConfigLoadFailed { cause: String },
    ConfigGenerated,
    ConfigGenFailed { cause: String },
    PluginFinished,
    PluginFailed { cause: String },
    EditorOpened,
    EditorFailed { cause: String },
}

/// Why a finished run failed.
#[derive(Debug)]
pub enum Failure {
    ConfigLoad { cause: String },
    ConfigGen { cause: String },
    Plugin { index: usize, cause: String },
    Editor { cause: String },
}

/// Where the pipeline stands.
#[derive(Debug)]
pub enum Phase {
    /// Config bootstrap: looking for an existing configuration.
    ConfigCheck,
    /// Config bootstrap: generating a configuration, since none was found.
    ConfigGen,
    /// Step loop: the included plugin at position `next` is about to run.
    Run { next: usize },
    /// Every selected plugin succeeded; the editor launch is pending.
    Editor,
    /// The run is over, successfully unless a failure is recorded.
    Finished { failure: Option<Failure> },
}

/// Phases in pipeline order; a run's stage never decreases.
pub open spec fn stage_of(p: Phase) -> int {
    match p {
        Phase::ConfigCheck => 0,
        Phase::ConfigGen => 1,
        Phase::Run { .. } => 2,
        Phase::Editor => 3,
        Phase::Finished { .. } => 4,
    }
}

/// The first included position of `s` at or after `from`; the width if
/// every position from `from` on is excluded.
pub open spec fn first_included_from<'a>(s: Steps<'a>, from: int) -> int
    decreases s.width() - from,
{
    if from >= s.width() {
        s.width() as int
    } else if s.included(from) {
        from
    } else {
        first_included_from(s, from + 1)
    }
}

proof fn lemma_first_included_bounds<'a>(s: Steps<'a>, from: int)
    requires
        0 <= from <= s.width(),
    ensures
        from <= first_included_from(s, from) <= s.width(),
        first_included_from(s, from) < s.width() ==> s.included(first_included_from(s, from)),
    decreases s.width() - from,
{
    if from < s.width() && !s.included(from) {
        lemma_first_included_bounds(s, from + 1);
    }
}

/// The phase after the step loop is (re)entered at `from`: the next
/// included plugin if any is left, else the editor launch if requested,
/// else a successful finish.
pub open spec fn spec_enter_run<'a>(s: Steps<'a>, open_in: OpenIn, from: int) -> Phase {
    let i = first_included_from(s, from);
    if i < s.width() {
        Phase::Run { next: i as usize }
    } else if open_in is Editor {
        Phase::Editor
    } else {
        Phase::Finished { failure: None }
    }
}

/// Which events may answer which phase.
pub open spec fn admissible(p: Phase, e: Event) -> bool {
    match (p, e) {
        (Phase::ConfigCheck, Event::ConfigLoaded { .. }) => true,
        (Phase::ConfigCheck, Event::ConfigLoadFailed { .. }) => true,
        (Phase::ConfigGen, Event::ConfigGenerated) => true,
        (Phase::ConfigGen, Event::ConfigGenFailed { .. }) => true,
        (Phase::Run { .. }, Event::PluginFinished) => true,
        (Phase::Run { .. }, Event::PluginFailed { .. }) => true,
        (Phase::Editor, Event::EditorOpened) => true,
        (Phase::Editor, Event::EditorFailed { .. }) => true,
        _ => false,
    }
}

/// The transition rule of the pipeline.
pub open spec fn spec_advance<'a>(s: Steps<'a>, open_in: OpenIn, p: Phase, e: Event) -> Phase {
    match (p, e) {
        (Phase::ConfigCheck, Event::ConfigLoaded { found }) => if found {
            spec_enter_run(s, open_in, 0)
        } else {
            Phase::ConfigGen
        },
        (Phase::ConfigCheck, Event::ConfigLoadFailed { cause }) => Phase::Finished {
            failure: Some(Failure::ConfigLoad { cause }),
        },
        (Phase::ConfigGen, Event::ConfigGenerated) => spec_enter_run(s, open_in, 0),
        (Phase::ConfigGen, Event::ConfigGenFailed { cause }) => Phase::Finished {
            failure: Some(Failure::ConfigGen { cause }),
        },
        (Phase::Run { next }, Event::PluginFinished) => spec_enter_run(s, open_in, next + 1),
        (Phase::Run { next }, Event::PluginFailed { cause }) => Phase::Finished {
            failure: Some(Failure::Plugin { index: next, cause }),
        },
        (Phase::Editor, Event::EditorOpened) => Phase::Finished { failure: None },
        (Phase::Editor, Event::EditorFailed { cause }) => Phase::Finished {
            failure: Some(Failure::Editor { cause }),
        },
        _ => p,
    }
}

/// The action the driver must perform in a phase.
pub open spec fn spec_next_action(p: Phase) -> Action {
    match p {
        Phase::ConfigCheck => Action::LoadConfig,
        Phase::ConfigGen => Action::GenerateConfig,
        Phase::Run { next } => Action::RunPlugin { index: next },
        Phase::Editor => Action::OpenEditor,
        Phase::Finished { .. } => Action::Stop,
    }
}

/// The phase refers only to real, included plugin positions.
pub open spec fn phase_wf<'a>(p: Phase, s: Steps<'a>) -> bool {
    match p {
        Phase::Run { next } => next < s.width() && s.included(next as int),
        Phase::Finished { failure } => match failure {
            Some(Failure::Plugin { index, .. }) => index < s.width(),
            _ => true,
        },
        _ => true,
    }
}

/// The plugin execution pipeline: the final step set, the post-run editor
/// policy, and the phase the run stands in. The registry the step set was
/// built from doubles as the ordered plugin list, so a `RunPlugin` action
/// indexes the same list the driver discovered its plugins in.
///
/// The orchestrator only decides; an unverified driver performs each
/// returned [`Action`] and reports what it observed as an [`Event`].
#[derive(Debug)]
pub struct Orchestrator<'a> {
    steps: Steps<'a>,
    open_in: OpenIn,
    phase: Phase,
}

impl<'a> Orchestrator<'a> {
    /// The final step set of the run.
    pub closed spec fn spec_steps(self) -> Steps<'a> {
        self.steps
    }

    /// The post-run editor policy.
    pub closed spec fn spec_open_in(self) -> OpenIn {
        self.open_in
    }

    /// The phase the run stands in.
    pub closed spec fn spec_phase(self) -> Phase {
        self.phase
    }

    /// The machine's invariant.
    pub open spec fn wf(self) -> bool {
        &&& self.spec_steps().wf()
        &&& phase_wf(self.spec_phase(), self.spec_steps())
    }

    /// Builds the machine for one run: merges the selections into the final
    /// step set and stands ready to bootstrap the configuration.
    pub fn new(
        registry: &'a Registry,
        open_in: OpenIn,
        only: Option<&Vec<String>>,
        skip: Option<&Vec<String>>,
    ) -> (r: Result<Orchestrator<'a>, Error>)
        requires
            registry.wf(),
        ensures
            r is Ok <==> (list_known(registry@, opt_names(only)) && list_known(
                registry@,
                opt_names(skip),
            )),
            match r {
                Ok(o) => {
                    &&& o.wf()
                    &&& o.spec_phase() == Phase::ConfigCheck
                    &&& o.spec_open_in() == open_in
                    &&& o.spec_steps().spec_registry() == registry@
                    &&& forall|i: int|
                        0 <= i < registry@.len() ==> (o.spec_steps().included(i)
                            <==> merged_included(
                            registry@,
                            opt_names(only),
                            opt_names(skip),
                            i,
                        ))
                },
                Err(e) => match e {
                    Error::OnlyParseFailed(f) => opt_names(only) matches Some(o) && first_unknown(
                        registry@,
                        o,
                        f.name@,
                    ),
                    Error::SkipParseFailed(f) => list_known(registry@, opt_names(only)) && (
                    opt_names(skip) matches Some(sk) && first_unknown(registry@, sk, f.name@)),
                    _ => false,
                },
            },
    {
        let steps = match select_steps(registry, only, skip) {
            Ok(s) => s,
            Err(e) => {
                return Err(e);
            },
        };
        Ok(Orchestrator { steps, open_in, phase: Phase::ConfigCheck })
    }

    /// What the driver must do next.
    pub fn next_action(&self) -> (a: Action)
        ensures
            a == spec_next_action(self.spec_phase()),
    {
        match &self.phase {
            Phase::ConfigCheck => Action::LoadConfig,
            Phase::ConfigGen => Action::GenerateConfig,
            Phase::Run { next } => Action::RunPlugin { index: *next },
            Phase::Editor => Action::OpenEditor,
            Phase::Finished { .. } => Action::Stop,
        }
    }

    /// The first included position at or after `from`. The step set and the
    /// plugin list share one registry, so the per-name inclusion check can
    /// never report an unknown step; that branch is proved unreachable.
    fn first_included(steps: &Steps<'a>, from: usize) -> (r: usize)
        requires
            steps.wf(),
            from <= steps.width(),
        ensures
            r == first_included_from(*steps, from as int),
    {
        let registry = steps.registry();
        let n: usize = registry.size();
        let mut i: usize = from;
        while i < n
            invariant
                steps.wf(),
                registry@ == steps.spec_registry(),
                n == steps.width(),
                i <= n,
                first_included_from(*steps, from as int) == first_included_from(*steps, i as int),
            decreases n - i,
        {
            let name = registry.name_at(i);
            proof {
                assert(steps.spec_registry()[i as int] == name@);
            }
            let here = match steps.is_set(name) {
                Ok(b) => b,
                Err(_) => vstd::pervasive::unreached(),
            };
            proof {
                assert(here == steps.included(i as int));
            }
            if here {
                return i;
            }
            i += 1;
        }
        n
    }

    /// (Re)enters the step loop at `from`.
    fn enter_run(steps: &Steps<'a>, open_in: OpenIn, from: usize) -> (p: Phase)
        requires
            steps.wf(),
            from <= steps.width(),
        ensures
            p == spec_enter_run(*steps, open_in, from as int),
            phase_wf(p, *steps),
    {
        proof {
            lemma_first_included_bounds(*steps, from as int);
        }
        let i = Self::first_included(steps, from);
        let n: usize = steps.registry().size();
        if i < n {
            Phase::Run { next: i }
        } else {
            match open_in {
                OpenIn::Editor => Phase::Editor,
                OpenIn::Nothing => Phase::Finished { failure: None },
            }
        }
    }

    /// Feeds back what the driver observed; the machine moves to the next
    /// phase by the pipeline's transition rule. The stage never decreases,
    /// each bootstrap phase is left for good, and within the step loop the
    /// position strictly advances.
    pub fn advance(&mut self, event: Event)
        requires
            old(self).wf(),
            admissible(old(self).spec_phase(), event),
        ensures
            final(self).wf(),
            final(self).spec_steps() == old(self).spec_steps(),
            final(self).spec_open_in() == old(self).spec_open_in(),
            final(self).spec_phase() == spec_advance(
                old(self).spec_steps(),
                old(self).spec_open_in(),
                old(self).spec_phase(),
                event,
            ),
            stage_of(final(self).spec_phase()) >= stage_of(old(self).spec_phase()),
            stage_of(old(self).spec_phase()) <= 1 ==> stage_of(final(self).spec_phase())
                > stage_of(old(self).spec_phase()),
            old(self).spec_phase() matches Phase::Run { next: i0 } ==> (final(self).spec_phase()
                matches Phase::Run { next: i1 } ==> i1 > i0),
    {
        let new_phase = match (&self.phase, event) {
            (Phase::ConfigCheck, Event::ConfigLoaded { found }) => {
                if found {
                    Self::enter_run(&self.steps, self.open_in, 0)
                } else {
                    Phase::ConfigGen
                }
            },
            (Phase::ConfigCheck, Event::ConfigLoadFailed { cause }) => Phase::Finished {
                failure: Some(Failure::ConfigLoad { cause }),
            },
            (Phase::ConfigGen, Event::ConfigGenerated) => Self::enter_run(
                &self.steps,
                self.open_in,
                0,
            ),
            (Phase::ConfigGen, Event::ConfigGenFailed { cause }) => Phase::Finished {
                failure: Some(Failure::ConfigGen { cause }),
            },
            (Phase::Run { next }, Event::PluginFinished) => Self::enter_run(
                &self.steps,
                self.open_in,
                *next + 1,
            ),
            (Phase::Run { next }, Event::PluginFailed { cause }) => Phase::Finished {
                failure: Some(Failure::Plugin { index: *next, cause }),
            },
            (Phase::Editor, Event::EditorOpened) => Phase::Finished { failure: None },
            (Phase::Editor, Event::EditorFailed { cause }) => Phase::Finished {
                failure: Some(Failure::Editor { cause }),
            },
            _ => vstd::pervasive::unreached(),
        };
        proof {
            match self.phase {
                Phase::Run { next } => lemma_first_included_bounds(self.steps, next + 1),
                _ => (),
            }
        }
        self.phase = new_phase;
    }

    /// Consumes a finished machine and renders the recorded failure, if any,
    /// in the run's error taxonomy; a plugin failure is attributed to the
    /// plugin's registered name.
    pub fn into_outcome(self) -> (r: Result<(), Error>)
        requires
            self.wf(),
            self.spec_phase() matches Phase::Finished { .. },
        ensures
            match self.spec_phase() {
                Phase::Finished { failure } => match failure {
                    None => r == Result::<(), Error>::Ok(()),
                    Some(Failure::ConfigLoad { cause }) => r == Result::<(), Error>::Err(
                        Error::ConfigLoadFailed(cause),
                    ),
                    Some(Failure::ConfigGen { cause }) => r == Result::<(), Error>::Err(
                        Error::ConfigGenFailed(cause),
                    ),
                    Some(Failure::Plugin { index, cause }) => r matches Result::Err(e) && (e
                        matches Error::PluginFailed { plugin_name, cause: c } && plugin_name@
                        == self.spec_steps().spec_registry()[index as int] && c == cause),
                    Some(Failure::Editor { cause }) => r == Result::<(), Error>::Err(
                        Error::OpenInEditorFailed(cause),
                    ),
                },
                _ => false,
            },
    {
        let Orchestrator { steps, open_in: _, phase } = self;
        match phase {
            Phase::Finished { failure } => match failure {
                None => Ok(()),
                Some(Failure::ConfigLoad { cause }) => Err(Error::ConfigLoadFailed(cause)),
                Some(Failure::ConfigGen { cause }) => Err(Error::ConfigGenFailed(cause)),
                Some(Failure::Plugin { index, cause }) => {
                    let plugin_name = steps.registry().name_at(index).clone();
                    Err(Error::PluginFailed { plugin_name, cause })
                },
                Some(Failure::Editor { cause }) => Err(Error::OpenInEditorFailed(cause)),
            },
            _ => vstd::pervasive::unreached(),
        }
    }
}

/// Fail-fast: in the step loop, one plugin failure finishes the whole run
/// at once, the recorded failure names the failing position, and a finished
/// machine admits no further event, so no later plugin can ever be selected.
pub proof fn lemma_fail_fast<'a>(s: Steps<'a>, open_in: OpenIn, next: usize, cause: String)
    ensures
        spec_advance(s, open_in, Phase::Run { next }, Event::PluginFailed { cause })
            == (Phase::Finished { failure: Some(Failure::Plugin { index: next, cause }) }),
        forall|e: Event|
            !admissible(
                Phase::Finished { failure: Some(Failure::Plugin { index: next, cause }) },
                e,
            ),
{
}

/// The config bootstrap runs at most once per invocation and before any
/// plugin: transitions never lower the stage, each bootstrap phase is left
/// for good, and only the two bootstrap phases ask the driver to touch the
/// configuration.
pub proof fn lemma_bootstrap_precedes_plugins<'a>(
    s: Steps<'a>,
    open_in: OpenIn,
    p: Phase,
    e: Event,
)
    requires
        s.wf(),
        phase_wf(p, s),
        admissible(p, e),
    ensures
        stage_of(spec_advance(s, open_in, p, e)) >= stage_of(p),
        stage_of(p) <= 1 ==> stage_of(spec_advance(s, open_in, p, e)) > stage_of(p),
        spec_next_action(p) == Action::LoadConfig <==> p == Phase::ConfigCheck,
        spec_next_action(p) == Action::GenerateConfig <==> p == Phase::ConfigGen,
        spec_next_action(p) matches Action::RunPlugin { .. } ==> stage_of(p) == 2,
{
}

} // verus!
