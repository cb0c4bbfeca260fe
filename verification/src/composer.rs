//! Composition of several templates into one prompt: side by side, or
//! chained so that each stage sees the previous stage's output.
use vstd::prelude::*;

use crate::strmap::{insert_entry, Duplicate, StrMap};
use crate::template::{
    placeholder_names, render_error_text, render_spec, PromptTemplate,
    RenderError, RenderErrorModel, TemplateModel,
};
use crate::text::{copy_string, decimal, join, join_strings, push_decimal, push_str};
use crate::token_budget::{estimate, truncate, BudgetModel, TokenBudget};

verus! {

// ---------------------------------------------------------------------------
// Models
// ---------------------------------------------------------------------------

/// The mathematical value of a [`PipelineStage`].
pub struct StageModel {
    pub template: TemplateModel,
    pub label: Option<Seq<char>>,
}

/// The mathematical value of a [`PromptComposer`].
pub struct ComposerModel {
    pub stages: Seq<StageModel>,
    pub separator: Seq<char>,
    pub token_budget: Option<BudgetModel>,
}

/// The mathematical value of a [`CompositionError`].
pub enum CompositionErrorModel {
    EmptyPipeline,
    RenderFailed { stage: Seq<char>, source: RenderErrorModel },
    TokenBudgetExceeded { stage: Seq<char>, used: nat, max: nat },
    CircularReference { stage: Seq<char> },
}

// ---------------------------------------------------------------------------
// Types
// ---------------------------------------------------------------------------

/// A stage in the composition pipeline.
#[derive(Debug, Clone)]
pub struct PipelineStage {
    pub template: PromptTemplate,
    pub label: Option<String>,
}

/// Error from composition operations.
#[derive(Debug)]
pub enum CompositionError {
    EmptyPipeline,
    RenderFailed { stage: String, source: RenderError },
    TokenBudgetExceeded { stage: String, used: usize, max: usize },
    CircularReference { stage: String },
}

/// Composes multiple templates into a pipeline.
#[derive(Debug, Clone)]
pub struct PromptComposer {
    stages: Vec<PipelineStage>,
    separator: String,
    token_budget: Option<TokenBudget>,
}

impl View for PipelineStage {
    type V = StageModel;

    open spec fn view(&self) -> StageModel {
        StageModel { template: self.template@, label: self.label.deep_view() }
    }
}

impl View for CompositionError {
    type V = CompositionErrorModel;

    open spec fn view(&self) -> CompositionErrorModel {
        match self {
            CompositionError::EmptyPipeline => CompositionErrorModel::EmptyPipeline,
            CompositionError::RenderFailed { stage, source } => CompositionErrorModel::RenderFailed {
                stage: stage@,
                source: source@,
            },
            CompositionError::TokenBudgetExceeded { stage, used, max } =>
                CompositionErrorModel::TokenBudgetExceeded {
                stage: stage@,
                used: *used as nat,
                max: *max as nat,
            },
            CompositionError::CircularReference { stage } =>
                CompositionErrorModel::CircularReference { stage: stage@ },
        }
    }
}

/// The budget of an optional token budget, as a model.
pub open spec fn budget_model(b: Option<TokenBudget>) -> Option<BudgetModel> {
    match b {
        Some(t) => Some(t@),
        None => None,
    }
}

impl View for PromptComposer {
    type V = ComposerModel;

    closed spec fn view(&self) -> ComposerModel {
        ComposerModel {
            stages: self.stages@.map_values(|s: PipelineStage| s@),
            separator: self.separator@,
            token_budget: budget_model(self.token_budget),
        }
    }
}

// ---------------------------------------------------------------------------
// Specifications
// ---------------------------------------------------------------------------

/// The default separator between stage outputs: a blank line.
pub open spec fn default_separator() -> Seq<char> {
    seq!['\n', '\n']
}

/// The name under which stage `i` reports errors: its label, else `stage_{i}`.
pub open spec fn stage_name(s: StageModel, i: nat) -> Seq<char> {
    match s.label {
        Some(l) => l,
        None => "stage_"@ + decimal(i),
    }
}

/// The placeholders of each stage's template.
pub open spec fn stage_placeholders(c: ComposerModel) -> Seq<Seq<Seq<char>>> {
    c.stages.map_values(|s: StageModel| placeholder_names(s.template.template))
}

/// The template id of each stage, in order.
pub open spec fn stage_ids(c: ComposerModel) -> Seq<Seq<char>> {
    c.stages.map_values(|s: StageModel| s.template.id)
}

/// The outputs of the first `n` stages rendered with the same values, or the
/// first stage that fails with its error.
pub open spec fn render_stages(
    stages: Seq<StageModel>,
    values: Seq<(Seq<char>, Seq<char>)>,
    phs: Seq<Seq<Seq<char>>>,
    n: nat,
) -> Result<Seq<Seq<char>>, (nat, RenderErrorModel)>
    decreases n,
{
    if n == 0 {
        Ok(seq![])
    } else {
        match render_stages(stages, values, phs, (n - 1) as nat) {
            Err(e) => Err(e),
            Ok(outs) => match render_spec(stages[n - 1].template, values, phs[n - 1]) {
                Ok(o) => Ok(outs.push(o)),
                Err(e) => Err(((n - 1) as nat, e)),
            },
        }
    }
}

/// The values after chaining the first `n` stages and the last stage's
/// output, or the first stage that fails with its error. Each stage sees the
/// values with `previous_output` set to the output of the stage before it.
pub open spec fn chain_stages(
    stages: Seq<StageModel>,
    values: Seq<(Seq<char>, Seq<char>)>,
    phs: Seq<Seq<Seq<char>>>,
    n: nat,
) -> Result<(Seq<(Seq<char>, Seq<char>)>, Seq<char>), (nat, RenderErrorModel)>
    decreases n,
{
    if n == 0 {
        Ok((values, seq![]))
    } else {
        match chain_stages(stages, values, phs, (n - 1) as nat) {
            Err(e) => Err(e),
            Ok((vals, _)) => match render_spec(stages[n - 1].template, vals, phs[n - 1]) {
                Ok(o) => Ok((insert_entry(vals, "previous_output"@, o), o)),
                Err(e) => Err(((n - 1) as nat, e)),
            },
        }
    }
}

/// The final output under the optional budget: an error when over budget,
/// else the output as truncation leaves it.
pub open spec fn enforce_budget(b: Option<BudgetModel>, text: Seq<char>) -> Result<
    Seq<char>,
    CompositionErrorModel,
> {
    match b {
        Some(bm) => if estimate(bm, text) > bm.max_tokens {
            Err(
                CompositionErrorModel::TokenBudgetExceeded {
                    stage: "final_output"@,
                    used: estimate(bm, text),
                    max: bm.max_tokens,
                },
            )
        } else {
            Ok(truncate(bm, text))
        },
        None => Ok(text),
    }
}

/// The outcome of `compose`: every stage rendered with the same values and
/// the outputs joined by the separator, under the budget.
pub open spec fn compose_spec(
    c: ComposerModel,
    values: Seq<(Seq<char>, Seq<char>)>,
    phs: Seq<Seq<Seq<char>>>,
) -> Result<Seq<char>, CompositionErrorModel> {
    if c.stages.len() == 0 {
        Err(CompositionErrorModel::EmptyPipeline)
    } else {
        match render_stages(c.stages, values, phs, c.stages.len()) {
            Err((i, e)) => Err(
                CompositionErrorModel::RenderFailed { stage: stage_name(c.stages[i as int], i), source: e },
            ),
            Ok(outs) => enforce_budget(c.token_budget, join(outs, c.separator)),
        }
    }
}

/// The outcome of `compose_chained`: the last stage's output, under the
/// budget.
pub open spec fn compose_chained_spec(
    c: ComposerModel,
    values: Seq<(Seq<char>, Seq<char>)>,
    phs: Seq<Seq<Seq<char>>>,
) -> Result<Seq<char>, CompositionErrorModel> {
    if c.stages.len() == 0 {
        Err(CompositionErrorModel::EmptyPipeline)
    } else {
        match chain_stages(c.stages, values, phs, c.stages.len()) {
            Err((i, e)) => Err(
                CompositionErrorModel::RenderFailed { stage: stage_name(c.stages[i as int], i), source: e },
            ),
            Ok((_, last)) => enforce_budget(c.token_budget, last),
        }
    }
}

/// A composition result agrees with its model.
pub open spec fn composition_result_is(
    r: Result<String, CompositionError>,
    m: Result<Seq<char>, CompositionErrorModel>,
) -> bool {
    match (r, m) {
        (Ok(s), Ok(ms)) => s@ == ms,
        (Err(e), Err(me)) => e@ == me,
        _ => false,
    }
}

/// The text of a composition error (what its `Display` shows).
pub open spec fn composition_error_text(e: CompositionErrorModel) -> Seq<char> {
    match e {
        CompositionErrorModel::EmptyPipeline => "Empty pipeline: no stages added"@,
        CompositionErrorModel::RenderFailed { stage, source } => "Render error at stage '"@ + stage
            + "': "@ + render_error_text(source),
        CompositionErrorModel::TokenBudgetExceeded { stage, used, max } =>
            "Token budget exceeded at stage '"@ + stage + "': used "@ + decimal(used) + ", max "@
            + decimal(max),
        CompositionErrorModel::CircularReference { stage } =>
            "Circular reference detected: pipeline stage '"@ + stage + "' referenced itself"@,
    }
}

/// The placeholders of each stage's template, as vectors of strings.
pub open spec fn placeholders_view(p: Seq<Vec<String>>) -> Seq<Seq<Seq<char>>> {
    p.map_values(|v: Vec<String>| v.deep_view())
}

/// Once a stage fails, rendering more stages reports the same failure.
proof fn lemma_render_stages_err(
    stages: Seq<StageModel>,
    values: Seq<(Seq<char>, Seq<char>)>,
    phs: Seq<Seq<Seq<char>>>,
    k: nat,
    m: nat,
)
    requires
        k <= m,
        render_stages(stages, values, phs, k) is Err,
    ensures
        render_stages(stages, values, phs, m) == render_stages(stages, values, phs, k),
    decreases m - k,
{
    if k < m {
        lemma_render_stages_err(stages, values, phs, k, (m - 1) as nat);
    }
}

/// Once a stage fails, chaining more stages reports the same failure.
proof fn lemma_chain_stages_err(
    stages: Seq<StageModel>,
    values: Seq<(Seq<char>, Seq<char>)>,
    phs: Seq<Seq<Seq<char>>>,
    k: nat,
    m: nat,
)
    requires
        k <= m,
        chain_stages(stages, values, phs, k) is Err,
    ensures
        chain_stages(stages, values, phs, m) == chain_stages(stages, values, phs, k),
    decreases m - k,
{
    if k < m {
        lemma_chain_stages_err(stages, values, phs, k, (m - 1) as nat);
    }
}

// ---------------------------------------------------------------------------
// Implementation
// ---------------------------------------------------------------------------

impl CompositionError {
    /// The text of this error (what `Display` shows).
    pub fn to_string(&self) -> (s: String)
        ensures
            s@ == composition_error_text(self@),
    {
        match self {
            CompositionError::EmptyPipeline => copy_string("Empty pipeline: no stages added"),
            CompositionError::RenderFailed { stage, source } => {
                let mut s = copy_string("Render error at stage '");
                push_str(&mut s, stage.as_str());
                push_str(&mut s, "': ");
                let t = source.to_string();
                push_str(&mut s, t.as_str());
                s
            },
            CompositionError::TokenBudgetExceeded { stage, used, max } => {
                let mut s = copy_string("Token budget exceeded at stage '");
                push_str(&mut s, stage.as_str());
                push_str(&mut s, "': used ");
                push_decimal(&mut s, *used as u64);
                push_str(&mut s, ", max ");
                push_decimal(&mut s, *max as u64);
                s
            },
            CompositionError::CircularReference { stage } => {
                let mut s = copy_string("Circular reference detected: pipeline stage '");
                push_str(&mut s, stage.as_str());
                push_str(&mut s, "' referenced itself");
                s
            },
        }
    }
}

/// The label of stage `i` for error reports.
fn stage_label(stage: &PipelineStage, i: usize) -> (r: String)
    ensures
        r@ == stage_name(stage@, i as nat),
{
    match &stage.label {
        Some(l) => l.duplicate(),
        None => {
            let mut s = copy_string("stage_");
            push_decimal(&mut s, i as u64);
            s
        },
    }
}

/// Applies the optional budget to the final output.
fn apply_budget(b: &Option<TokenBudget>, text: String) -> (r: Result<String, CompositionError>)
    ensures
        composition_result_is(r, enforce_budget(budget_model(*b), text@)),
{
    match b {
        Some(budget) => {
            let count = budget.estimate_tokens(text.as_str());
            if count > budget.max_tokens() {
                return Err(
                    CompositionError::TokenBudgetExceeded {
                        stage: copy_string("final_output"),
                        used: count,
                        max: budget.max_tokens(),
                    },
                );
            }
            Ok(budget.truncate_to_budget(text.as_str()))
        },
        None => Ok(text),
    }
}

impl PromptComposer {
    /// An empty pipeline with a blank line as separator and no budget.
    pub fn new() -> (c: Self)
        ensures
            c@.stages == Seq::<StageModel>::empty(),
            c@.separator == default_separator(),
            c@.token_budget is None,
    {
        let mut sep = String::new();
        crate::text::push_chars(&mut sep, ['\n', '\n'].as_slice());
        let c = PromptComposer { stages: Vec::new(), separator: sep, token_budget: None };
        assert(c@.stages =~= Seq::<StageModel>::empty());
        proof {
            assert(['\n', '\n']@ =~= default_separator());
        }
        c
    }

    /// Set the separator between stage outputs.
    pub fn with_separator(self, sep: &str) -> (c: Self)
        ensures
            c@ == (ComposerModel { separator: sep@, ..self@ }),
    {
        PromptComposer { stages: self.stages, separator: copy_string(sep), token_budget: self.token_budget }
    }

    /// Set a token budget for the composed output.
    pub fn with_token_budget(self, budget: TokenBudget) -> (c: Self)
        ensures
            c@ == (ComposerModel { token_budget: Some(budget@), ..self@ }),
    {
        PromptComposer { stages: self.stages, separator: self.separator, token_budget: Some(budget) }
    }

    /// Add a template as a pipeline stage, labelled with the template's name.
    pub fn add_stage(self, template: PromptTemplate) -> (c: Self)
        ensures
            c@ == (ComposerModel {
                stages: self@.stages.push(StageModel { template: template@, label: Some(template@.name) }),
                ..self@
            }),
    {
        let label = template.name.duplicate();
        let mut stages = self.stages;
        stages.push(PipelineStage { template, label: Some(label) });
        let c = PromptComposer { stages, separator: self.separator, token_budget: self.token_budget };
        assert(c@.stages =~= self@.stages.push(StageModel { template: template@, label: Some(template@.name) }));
        c
    }

    /// Add a stage with an explicit label.
    pub fn add_labeled_stage(self, template: PromptTemplate, label: &str) -> (c: Self)
        ensures
            c@ == (ComposerModel {
                stages: self@.stages.push(StageModel { template: template@, label: Some(label@) }),
                ..self@
            }),
    {
        let mut stages = self.stages;
        stages.push(PipelineStage { template, label: Some(copy_string(label)) });
        let c = PromptComposer { stages, separator: self.separator, token_budget: self.token_budget };
        assert(c@.stages =~= self@.stages.push(StageModel { template: template@, label: Some(label@) }));
        c
    }

    /// Get the number of stages.
    pub fn stage_count(&self) -> (n: usize)
        ensures
            n == self@.stages.len(),
    {
        self.stages.len()
    }

    /// The template id of every stage, in order.
    pub(crate) fn template_ids(&self) -> (ids: Vec<String>)
        ensures
            ids.deep_view() == stage_ids(self@),
    {
        let mut ids: Vec<String> = Vec::new();
        let n = self.stages.len();
        for i in 0..n
            invariant
                n == self.stages@.len(),
                ids.deep_view() == stage_ids(self@).take(i as int),
        {
            let ghost before = ids.deep_view();
            let id = self.stages[i].template.id.duplicate();
            assert(self@.stages[i as int] == self.stages@[i as int]@);
            assert(stage_ids(self@)[i as int] == id@);
            ids.push(id);
            assert(ids.deep_view() =~= before.push(id@));
            assert(ids.deep_view() =~= stage_ids(self@).take(i + 1));
        }
        assert(stage_ids(self@).take(n as int) =~= stage_ids(self@));
        ids
    }

    /// The placeholders of every stage's template.
    fn all_placeholders(&self) -> (p: Vec<Vec<String>>)
        ensures
            placeholders_view(p@) == stage_placeholders(self@),
            p@.len() == self@.stages.len(),
    {
        let mut p: Vec<Vec<String>> = Vec::new();
        let n = self.stages.len();
        for i in 0..n
            invariant
                n == self.stages@.len(),
                p@.len() == i,
                forall|j: int|
                    0 <= j < i ==> (#[trigger] p@[j]).deep_view() == placeholder_names(
                        self.stages@[j].template@.template,
                    ),
        {
            p.push(self.stages[i].template.placeholders());
        }
        assert(placeholders_view(p@) =~= stage_placeholders(self@));
        p
    }

    /// Compose all stages into a single prompt string: every stage receives
    /// the same values and the outputs are joined with the separator.
    pub fn compose(&self, values: &StrMap<String>) -> (r: Result<String, CompositionError>)
        ensures
            composition_result_is(r, compose_spec(self@, values@, stage_placeholders(self@))),
    {
        let p = self.all_placeholders();
        self.compose_with_placeholders(values, &p)
    }

    /// `compose`, given the placeholders of every stage's template.
    pub fn compose_with_placeholders(&self, values: &StrMap<String>, placeholders: &Vec<Vec<String>>) -> (r:
        Result<String, CompositionError>)
        requires
            placeholders@.len() == self@.stages.len(),
        ensures
            composition_result_is(r, compose_spec(self@, values@, placeholders_view(placeholders@))),
    {
        if self.stages.len() == 0 {
            return Err(CompositionError::EmptyPipeline);
        }
        let ghost phs = placeholders_view(placeholders@);
        let ghost stages = self@.stages;
        let n = self.stages.len();
        let mut outputs: Vec<String> = Vec::new();
        assert(outputs.deep_view() =~= Seq::<Seq<char>>::empty());
        for i in 0..n
            invariant
                n == self.stages@.len(),
                stages == self@.stages,
                stages.len() == n,
                placeholders@.len() == n,
                phs == placeholders_view(placeholders@),
                render_stages(stages, values@, phs, i as nat) == Ok::<
                    Seq<Seq<char>>,
                    (nat, RenderErrorModel),
                >(outputs.deep_view()),
        {
            let stage = &self.stages[i];
            assert(stages[i as int] == stage@);
            assert(phs[i as int] == placeholders@[i as int].deep_view());
            match stage.template.render_with_placeholders(values, &placeholders[i]) {
                Ok(out) => {
                    let ghost before = outputs.deep_view();
                    outputs.push(out);
                    assert(outputs.deep_view() =~= before.push(out@));
                },
                Err(e) => {
                    let name = stage_label(stage, i);
                    proof {
                        lemma_render_stages_err(stages, values@, phs, (i + 1) as nat, n as nat);
                    }
                    return Err(CompositionError::RenderFailed { stage: name, source: e });
                },
            }
        }
        let joined = join_strings(&outputs, self.separator.as_str());
        apply_budget(&self.token_budget, joined)
    }

    /// Compose stages in chain mode: each stage's output is available as
    /// `{{previous_output}}` to the next stage; the result is the last
    /// stage's output.
    pub fn compose_chained(&self, initial_values: &StrMap<String>) -> (r: Result<String, CompositionError>)
        ensures
            composition_result_is(
                r,
                compose_chained_spec(self@, initial_values@, stage_placeholders(self@)),
            ),
    {
        let p = self.all_placeholders();
        self.compose_chained_with_placeholders(initial_values, &p)
    }

    /// `compose_chained`, given the placeholders of every stage's template.
    pub fn compose_chained_with_placeholders(
        &self,
        initial_values: &StrMap<String>,
        placeholders: &Vec<Vec<String>>,
    ) -> (r: Result<String, CompositionError>)
        requires
            placeholders@.len() == self@.stages.len(),
        ensures
            composition_result_is(
                r,
                compose_chained_spec(self@, initial_values@, placeholders_view(placeholders@)),
            ),
    {
        if self.stages.len() == 0 {
            return Err(CompositionError::EmptyPipeline);
        }
        let ghost phs = placeholders_view(placeholders@);
        let ghost stages = self@.stages;
        let n = self.stages.len();
        let mut values = initial_values.duplicate();
        let mut final_output = String::new();
        for i in 0..n
            invariant
                n == self.stages@.len(),
                stages == self@.stages,
                stages.len() == n,
                placeholders@.len() == n,
                phs == placeholders_view(placeholders@),
                chain_stages(stages, initial_values@, phs, i as nat) == Ok::<
                    (Seq<(Seq<char>, Seq<char>)>, Seq<char>),
                    (nat, RenderErrorModel),
                >((values@, final_output@)),
        {
            let stage = &self.stages[i];
            assert(stages[i as int] == stage@);
            assert(phs[i as int] == placeholders@[i as int].deep_view());
            match stage.template.render_with_placeholders(&values, &placeholders[i]) {
                Ok(out) => {
                    values.insert(copy_string("previous_output"), out.duplicate());
                    final_output = out;
                },
                Err(e) => {
                    let name = stage_label(stage, i);
                    proof {
                        lemma_chain_stages_err(stages, initial_values@, phs, (i + 1) as nat, n as nat);
                    }
                    return Err(CompositionError::RenderFailed { stage: name, source: e });
                },
            }
        }
        apply_budget(&self.token_budget, final_output)
    }
}

impl Default for PromptComposer {
    fn default() -> (c: Self)
        ensures
            c@.stages == Seq::<StageModel>::empty(),
            c@.separator == default_separator(),
            c@.token_budget is None,
    {
        Self::new()
    }
}

// ---------------------------------------------------------------------------
// Laws
// ---------------------------------------------------------------------------

/// With a budget, a composed prompt never exceeds it: an over-budget
/// output is an error, not a longer prompt.
pub proof fn law_compose_respects_budget(
    c: ComposerModel,
    values: Seq<(Seq<char>, Seq<char>)>,
    phs: Seq<Seq<Seq<char>>>,
    b: BudgetModel,
)
    requires
        c.token_budget == Some(b),
    ensures
        compose_spec(c, values, phs) matches Ok(s) ==> crate::token_budget::within_budget(b, s),
        compose_chained_spec(c, values, phs) matches Ok(s) ==> crate::token_budget::within_budget(b, s),
{
}

/// Without a budget, composing joins the stage outputs with the separator.
pub proof fn law_compose_joins_outputs(
    c: ComposerModel,
    values: Seq<(Seq<char>, Seq<char>)>,
    phs: Seq<Seq<Seq<char>>>,
)
    requires
        c.token_budget is None,
        c.stages.len() > 0,
        render_stages(c.stages, values, phs, c.stages.len()) is Ok,
    ensures
        compose_spec(c, values, phs) == Ok::<Seq<char>, CompositionErrorModel>(
            join(render_stages(c.stages, values, phs, c.stages.len())->Ok_0, c.separator),
        ),
{
}

proof fn lemma_chain_distinct(
    stages: Seq<StageModel>,
    values: Seq<(Seq<char>, Seq<char>)>,
    phs: Seq<Seq<Seq<char>>>,
    n: nat,
)
    requires
        crate::strmap::distinct_keys(values),
    ensures
        chain_stages(stages, values, phs, n) matches Ok((vals, _)) ==> crate::strmap::distinct_keys(vals),
    decreases n,
{
    if n > 0 {
        lemma_chain_distinct(stages, values, phs, (n - 1) as nat);
        if let Ok((vals, _)) = chain_stages(stages, values, phs, (n - 1) as nat) {
            if let Ok(o) = render_spec(stages[n - 1].template, vals, phs[n - 1]) {
                crate::strmap::lemma_insert_entry(vals, "previous_output"@, o);
            }
        }
    }
}

/// In a chain, after a stage has run, `previous_output` holds that stage's
/// output for the next stage, and the other values are as given.
pub proof fn law_chain_feeds_previous_output(
    stages: Seq<StageModel>,
    values: Seq<(Seq<char>, Seq<char>)>,
    phs: Seq<Seq<Seq<char>>>,
    n: nat,
)
    requires
        crate::strmap::distinct_keys(values),
        n > 0,
        chain_stages(stages, values, phs, n) is Ok,
    ensures
        crate::strmap::lookup(chain_stages(stages, values, phs, n)->Ok_0.0, "previous_output"@)
            == Some(chain_stages(stages, values, phs, n)->Ok_0.1),
        forall|k: Seq<char>|
            k != "previous_output"@ ==> #[trigger] crate::strmap::lookup(
                chain_stages(stages, values, phs, n)->Ok_0.0,
                k,
            ) == crate::strmap::lookup(values, k),
    decreases n,
{
    lemma_chain_distinct(stages, values, phs, (n - 1) as nat);
    assert(chain_stages(stages, values, phs, (n - 1) as nat) is Ok);
    let (vals, _) = chain_stages(stages, values, phs, (n - 1) as nat)->Ok_0;
    let o = render_spec(stages[n - 1].template, vals, phs[n - 1])->Ok_0;
    crate::strmap::lemma_insert_entry(vals, "previous_output"@, o);
    if n > 1 {
        law_chain_feeds_previous_output(stages, values, phs, (n - 1) as nat);
    }
    assert forall|k: Seq<char>|
        k != "previous_output"@ implies #[trigger] crate::strmap::lookup(
            chain_stages(stages, values, phs, n)->Ok_0.0,
            k,
        ) == crate::strmap::lookup(values, k) by {
        assert(crate::strmap::lookup(chain_stages(stages, values, phs, n)->Ok_0.0, k)
            == crate::strmap::lookup(vals, k));
    }
}

} // verus!
