//! The compiler: templates, values, an optional budget and a separator in,
//! one prompt out.
use vstd::prelude::*;

use crate::composer::{
    compose_chained_spec, compose_spec, composition_error_text, default_separator,
    placeholders_view, ComposerModel, CompositionError, CompositionErrorModel,
    PromptComposer, StageModel,
};
use crate::strmap::{insert_entry, lookup, Duplicate, StrMap};
use crate::template::{
    first_missing, placeholder_names, render_error_text, render_spec, PromptTemplate,
    RenderErrorModel, TemplateModel,
};
use crate::text::{copy_string, join, join_strings, push_chars, push_str};
use crate::token_budget::{truncate, within_budget, BudgetModel, TokenBudget};

verus! {

// ---------------------------------------------------------------------------
// Models
// ---------------------------------------------------------------------------

/// The mathematical value of a [`PromptCompiler`].
pub struct CompilerModel {
    pub templates: Seq<TemplateModel>,
    pub variables: Seq<(Seq<char>, Seq<char>)>,
    pub token_budget: Option<BudgetModel>,
    pub separator: Seq<char>,
    pub strict: bool,
}

/// The mathematical value of a [`CompileError`].
pub enum CompileErrorModel {
    MissingVariable(Seq<char>),
    TypeError(Seq<char>),
    TokenBudget(Seq<char>),
    Composition(CompositionErrorModel),
    Validation(Seq<char>),
    Empty,
}

// ---------------------------------------------------------------------------
// Types
// ---------------------------------------------------------------------------

/// Error from compilation operations.
#[derive(Debug)]
pub enum CompileError {
    MissingVariable(String),
    TypeError(String),
    TokenBudget(String),
    Composition(CompositionError),
    Validation(String),
    Empty,
}

/// Compiles a list of templates into a final prompt string with all
/// variables filled.
#[derive(Debug)]
pub struct PromptCompiler {
    templates: Vec<PromptTemplate>,
    variables: StrMap<String>,
    token_budget: Option<TokenBudget>,
    separator: String,
    strict_validation: bool,
}

impl View for CompileError {
    type V = CompileErrorModel;

    open spec fn view(&self) -> CompileErrorModel {
        match self {
            CompileError::MissingVariable(s) => CompileErrorModel::MissingVariable(s@),
            CompileError::TypeError(s) => CompileErrorModel::TypeError(s@),
            CompileError::TokenBudget(s) => CompileErrorModel::TokenBudget(s@),
            CompileError::Composition(e) => CompileErrorModel::Composition(e@),
            CompileError::Validation(s) => CompileErrorModel::Validation(s@),
            CompileError::Empty => CompileErrorModel::Empty,
        }
    }
}

impl View for PromptCompiler {
    type V = CompilerModel;

    closed spec fn view(&self) -> CompilerModel {
        CompilerModel {
            templates: self.templates@.map_values(|t: PromptTemplate| t@),
            variables: self.variables@,
            token_budget: crate::composer::budget_model(self.token_budget),
            separator: self.separator@,
            strict: self.strict_validation,
        }
    }
}

// ---------------------------------------------------------------------------
// Specifications
// ---------------------------------------------------------------------------

/// The placeholders of each template.
pub open spec fn template_placeholders(c: CompilerModel) -> Seq<Seq<Seq<char>>> {
    c.templates.map_values(|t: TemplateModel| placeholder_names(t.template))
}

/// The message of strict validation for placeholder `ph` of template `t`
/// that has neither a value nor a default.
pub open spec fn strict_message(t: TemplateModel, ph: Seq<char>) -> Seq<char> {
    match lookup(t.variables, ph) {
        Some(_) => "Template '"@ + t.id + "': missing required variable '"@ + ph + "'"@,
        None => "Template '"@ + t.id + "': undefined variable '"@ + ph + "'"@,
    }
}

/// The first strict-validation failure among the first `n` templates.
pub open spec fn strict_failure(
    templates: Seq<TemplateModel>,
    values: Seq<(Seq<char>, Seq<char>)>,
    phs: Seq<Seq<Seq<char>>>,
    n: nat,
) -> Option<Seq<char>>
    decreases n,
{
    if n == 0 {
        None
    } else {
        match strict_failure(templates, values, phs, (n - 1) as nat) {
            Some(m) => Some(m),
            None => match first_missing(templates[n - 1].variables, values, phs[n - 1]) {
                Some(ph) => Some(strict_message(templates[n - 1], ph)),
                None => None,
            },
        }
    }
}

/// The outputs of the first `n` templates, or the first render error.
pub open spec fn render_templates(
    templates: Seq<TemplateModel>,
    values: Seq<(Seq<char>, Seq<char>)>,
    phs: Seq<Seq<Seq<char>>>,
    n: nat,
) -> Result<Seq<Seq<char>>, RenderErrorModel>
    decreases n,
{
    if n == 0 {
        Ok(seq![])
    } else {
        match render_templates(templates, values, phs, (n - 1) as nat) {
            Err(e) => Err(e),
            Ok(outs) => match render_spec(templates[n - 1], values, phs[n - 1]) {
                Ok(o) => Ok(outs.push(o)),
                Err(e) => Err(e),
            },
        }
    }
}

/// The joined output of all templates before the budget is applied, if
/// every template renders.
pub open spec fn joined_output(c: CompilerModel, phs: Seq<Seq<Seq<char>>>) -> Option<Seq<char>> {
    match render_templates(c.templates, c.variables, phs, c.templates.len()) {
        Ok(outs) => Some(join(outs, c.separator)),
        Err(_) => None,
    }
}

/// The outcome of `compile`.
pub open spec fn compile_spec(c: CompilerModel, phs: Seq<Seq<Seq<char>>>) -> Result<
    Seq<char>,
    CompileErrorModel,
> {
    if c.templates.len() == 0 {
        Err(CompileErrorModel::Empty)
    } else if c.strict && strict_failure(c.templates, c.variables, phs, c.templates.len()) is Some {
        Err(
            CompileErrorModel::Validation(
                strict_failure(c.templates, c.variables, phs, c.templates.len())->0,
            ),
        )
    } else {
        match render_templates(c.templates, c.variables, phs, c.templates.len()) {
            Err(e) => Err(CompileErrorModel::TypeError(render_error_text(e))),
            Ok(outs) => {
                let text = join(outs, c.separator);
                match c.token_budget {
                    Some(b) => if !within_budget(b, text) {
                        Ok(truncate(b, text))
                    } else {
                        Ok(text)
                    },
                    None => Ok(text),
                }
            },
        }
    }
}

/// The composer that `compile_pipelined` builds: one stage per template,
/// labelled with its name, with the compiler's separator and budget.
pub open spec fn pipeline_of(c: CompilerModel) -> ComposerModel {
    ComposerModel {
        stages: c.templates.map_values(|t: TemplateModel| StageModel { template: t, label: Some(t.name) }),
        separator: c.separator,
        token_budget: c.token_budget,
    }
}

/// The composer that `compile_chained` builds: as `pipeline_of`, with the
/// default separator.
pub open spec fn chain_of(c: CompilerModel) -> ComposerModel {
    ComposerModel { separator: default_separator(), ..pipeline_of(c) }
}

/// A composition outcome seen as a compilation outcome: a compiler without
/// templates refuses before composing.
pub open spec fn as_compile_result(c: CompilerModel, r: Result<Seq<char>, CompositionErrorModel>) -> Result<
    Seq<char>,
    CompileErrorModel,
> {
    if c.templates.len() == 0 {
        Err(CompileErrorModel::Empty)
    } else {
        match r {
            Ok(s) => Ok(s),
            Err(e) => Err(CompileErrorModel::Composition(e)),
        }
    }
}

/// A compilation result agrees with its model.
pub open spec fn compile_result_is(
    r: Result<String, CompileError>,
    m: Result<Seq<char>, CompileErrorModel>,
) -> bool {
    match (r, m) {
        (Ok(s), Ok(ms)) => s@ == ms,
        (Err(e), Err(me)) => e@ == me,
        _ => false,
    }
}

/// The text of a compile error (what its `Display` shows).
pub open spec fn compile_error_text(e: CompileErrorModel) -> Seq<char> {
    match e {
        CompileErrorModel::MissingVariable(s) => "Missing variable: "@ + s,
        CompileErrorModel::TypeError(s) => "Type error: "@ + s,
        CompileErrorModel::TokenBudget(s) => "Token budget exceeded: "@ + s,
        CompileErrorModel::Composition(c) => "Composition error: "@ + composition_error_text(c),
        CompileErrorModel::Validation(s) => "Validation failed: "@ + s,
        CompileErrorModel::Empty => "Empty compiler: no templates or stages configured"@,
    }
}

/// Once a template fails, rendering more templates reports the same failure.
proof fn lemma_render_templates_err(
    templates: Seq<TemplateModel>,
    values: Seq<(Seq<char>, Seq<char>)>,
    phs: Seq<Seq<Seq<char>>>,
    k: nat,
    m: nat,
)
    requires
        k <= m,
        render_templates(templates, values, phs, k) is Err,
    ensures
        render_templates(templates, values, phs, m) == render_templates(templates, values, phs, k),
    decreases m - k,
{
    if k < m {
        lemma_render_templates_err(templates, values, phs, k, (m - 1) as nat);
    }
}

/// Once a template fails strict validation, later templates do not change
/// the reported failure.
proof fn lemma_strict_failure_some(
    templates: Seq<TemplateModel>,
    values: Seq<(Seq<char>, Seq<char>)>,
    phs: Seq<Seq<Seq<char>>>,
    k: nat,
    m: nat,
)
    requires
        k <= m,
        strict_failure(templates, values, phs, k) is Some,
    ensures
        strict_failure(templates, values, phs, m) == strict_failure(templates, values, phs, k),
    decreases m - k,
{
    if k < m {
        lemma_strict_failure_some(templates, values, phs, k, (m - 1) as nat);
    }
}

// ---------------------------------------------------------------------------
// Implementation
// ---------------------------------------------------------------------------

impl CompileError {
    /// The text of this error (what `Display` shows).
    pub fn to_string(&self) -> (s: String)
        ensures
            s@ == compile_error_text(self@),
    {
        match self {
            CompileError::MissingVariable(t) => {
                let mut s = copy_string("Missing variable: ");
                push_str(&mut s, t.as_str());
                s
            },
            CompileError::TypeError(t) => {
                let mut s = copy_string("Type error: ");
                push_str(&mut s, t.as_str());
                s
            },
            CompileError::TokenBudget(t) => {
                let mut s = copy_string("Token budget exceeded: ");
                push_str(&mut s, t.as_str());
                s
            },
            CompileError::Composition(c) => {
                let mut s = copy_string("Composition error: ");
                let t = c.to_string();
                push_str(&mut s, t.as_str());
                s
            },
            CompileError::Validation(t) => {
                let mut s = copy_string("Validation failed: ");
                push_str(&mut s, t.as_str());
                s
            },
            CompileError::Empty => copy_string("Empty compiler: no templates or stages configured"),
        }
    }
}

/// The strict-validation message for `ph` in template `t`.
fn strict_message_exec(t: &PromptTemplate, ph: &String) -> (m: String)
    ensures
        m@ == strict_message(t@, ph@),
{
    let defined = t.variables.contains_key(ph.as_str());
    let mut m = copy_string("Template '");
    push_str(&mut m, t.id.as_str());
    if defined {
        push_str(&mut m, "': missing required variable '");
    } else {
        push_str(&mut m, "': undefined variable '");
    }
    push_str(&mut m, ph.as_str());
    push_str(&mut m, "'");
    m
}

impl PromptCompiler {
    /// An empty compiler: no templates, no values, no budget, a blank line as
    /// separator, strict validation off.
    pub fn new() -> (c: Self)
        ensures
            c@.templates == Seq::<TemplateModel>::empty(),
            c@.variables == Seq::<(Seq<char>, Seq<char>)>::empty(),
            c@.token_budget is None,
            c@.separator == default_separator(),
            !c@.strict,
    {
        let mut sep = String::new();
        push_chars(&mut sep, ['\n', '\n'].as_slice());
        let c = PromptCompiler {
            templates: Vec::new(),
            variables: StrMap::new(),
            token_budget: None,
            separator: sep,
            strict_validation: false,
        };
        assert(c@.templates =~= Seq::<TemplateModel>::empty());
        assert(['\n', '\n']@ =~= default_separator());
        c
    }

    /// Add a template to the compilation.
    pub fn add_template(self, template: PromptTemplate) -> (c: Self)
        ensures
            c@ == (CompilerModel { templates: self@.templates.push(template@), ..self@ }),
    {
        let mut templates = self.templates;
        templates.push(template);
        let c = PromptCompiler {
            templates,
            variables: self.variables,
            token_budget: self.token_budget,
            separator: self.separator,
            strict_validation: self.strict_validation,
        };
        assert(c@.templates =~= self@.templates.push(template@));
        c
    }

    /// Set a variable value.
    pub fn set_variable(self, name: &str, value: &str) -> (c: Self)
        ensures
            c@ == (CompilerModel { variables: insert_entry(self@.variables, name@, value@), ..self@ }),
    {
        let mut c = self;
        c.variables.insert(copy_string(name), copy_string(value));
        c
    }

    /// Set several variables at once, in the order of `vars`; later values
    /// replace earlier ones for the same name.
    pub fn set_variables(self, vars: StrMap<String>) -> (c: Self)
        ensures
            c@ == (CompilerModel {
                variables: insert_all(self@.variables, vars@, vars@.len() as nat),
                ..self@
            }),
    {
        let mut c = self;
        let n = vars.len();
        for i in 0..n
            invariant
                n == vars@.len(),
                c@ == (CompilerModel {
                    variables: insert_all(self@.variables, vars@, i as nat),
                    ..self@
                }),
        {
            let k = vars.key_at(i).duplicate();
            let v = vars.value_at(i).duplicate();
            c.variables.insert(k, v);
        }
        c
    }

    /// Set a token budget.
    pub fn with_token_budget(self, budget: TokenBudget) -> (c: Self)
        ensures
            c@ == (CompilerModel { token_budget: Some(budget@), ..self@ }),
    {
        let mut c = self;
        c.token_budget = Some(budget);
        c
    }

    /// Set the separator between compiled template outputs.
    pub fn with_separator(self, sep: &str) -> (c: Self)
        ensures
            c@ == (CompilerModel { separator: sep@, ..self@ }),
    {
        let mut c = self;
        c.separator = copy_string(sep);
        c
    }

    /// Enable strict validation: all placeholders must have values or
    /// defaults.
    pub fn strict(self) -> (c: Self)
        ensures
            c@ == (CompilerModel { strict: true, ..self@ }),
    {
        let mut c = self;
        c.strict_validation = true;
        c
    }

    /// The placeholders of every template.
    fn all_placeholders(&self) -> (p: Vec<Vec<String>>)
        ensures
            placeholders_view(p@) == template_placeholders(self@),
            p@.len() == self@.templates.len(),
    {
        let mut p: Vec<Vec<String>> = Vec::new();
        let n = self.templates.len();
        for i in 0..n
            invariant
                n == self.templates@.len(),
                p@.len() == i,
                forall|j: int|
                    0 <= j < i ==> (#[trigger] p@[j]).deep_view() == placeholder_names(
                        self.templates@[j]@.template,
                    ),
        {
            p.push(self.templates[i].placeholders());
        }
        assert(placeholders_view(p@) =~= template_placeholders(self@));
        p
    }

    /// Compile all templates into a single prompt string: strict checks
    /// first when enabled, then every template rendered with the values,
    /// the outputs joined with the separator, and the result truncated when
    /// over the budget.
    pub fn compile(&self) -> (r: Result<String, CompileError>)
        ensures
            compile_result_is(r, compile_spec(self@, template_placeholders(self@))),
    {
        let p = self.all_placeholders();
        self.compile_with_placeholders(&p)
    }

    /// Every template rendered with the compiler's values.
    fn render_all(&self, placeholders: &Vec<Vec<String>>) -> (r: Result<Vec<String>, crate::template::RenderError>)
        requires
            placeholders@.len() == self@.templates.len(),
        ensures
            match (r, render_templates(
                self@.templates,
                self@.variables,
                placeholders_view(placeholders@),
                self@.templates.len(),
            )) {
                (Ok(v), Ok(m)) => v.deep_view() == m,
                (Err(e), Err(me)) => e@ == me,
                _ => false,
            },
    {
        let ghost phs = placeholders_view(placeholders@);
        let ghost ts = self@.templates;
        let n = self.templates.len();
        let mut outputs: Vec<String> = Vec::new();
        assert(outputs.deep_view() =~= Seq::<Seq<char>>::empty());
        for i in 0..n
            invariant
                n == self.templates@.len(),
                ts == self@.templates,
                ts.len() == n,
                placeholders@.len() == n,
                phs == placeholders_view(placeholders@),
                render_templates(ts, self@.variables, phs, i as nat) == Ok::<
                    Seq<Seq<char>>,
                    RenderErrorModel,
                >(outputs.deep_view()),
        {
            assert(ts[i as int] == self.templates@[i as int]@);
            assert(phs[i as int] == placeholders@[i as int].deep_view());
            match self.templates[i].render_with_placeholders(&self.variables, &placeholders[i]) {
                Ok(out) => {
                    let ghost before = outputs.deep_view();
                    outputs.push(out);
                    assert(outputs.deep_view() =~= before.push(out@));
                },
                Err(e) => {
                    proof {
                        lemma_render_templates_err(ts, self@.variables, phs, (i + 1) as nat, n as nat);
                    }
                    return Err(e);
                },
            }
        }
        Ok(outputs)
    }

    /// The first strict-validation failure, if any.
    fn strict_check(&self, placeholders: &Vec<Vec<String>>) -> (r: Option<String>)
        requires
            placeholders@.len() == self@.templates.len(),
        ensures
            match (r, strict_failure(
                self@.templates,
                self@.variables,
                placeholders_view(placeholders@),
                self@.templates.len(),
            )) {
                (Some(m), Some(mm)) => m@ == mm,
                (None, None) => true,
                _ => false,
            },
    {
        let ghost phs = placeholders_view(placeholders@);
        let ghost ts = self@.templates;
        let ghost vals = self@.variables;
        let n = self.templates.len();
        for i in 0..n
            invariant
                n == self.templates@.len(),
                ts == self@.templates,
                vals == self@.variables,
                ts.len() == n,
                placeholders@.len() == n,
                phs == placeholders_view(placeholders@),
                strict_failure(ts, vals, phs, i as nat) is None,
        {
            let t = &self.templates[i];
            let phs_i = &placeholders[i];
            assert(ts[i as int] == t@);
            assert(phs[i as int] == phs_i.deep_view());
            let ghost pv = phs_i.deep_view();
            let m = phs_i.len();
            assert(pv.skip(0) =~= pv);
            for j in 0..m
                invariant
                    m == phs_i@.len(),
                    pv == phs_i.deep_view(),
                    vals == self@.variables,
                    i < n,
                    n == self.templates@.len(),
                    ts == self@.templates,
                    ts.len() == n,
                    placeholders@.len() == n,
                    phs == placeholders_view(placeholders@),
                    phs[i as int] == pv,
                    ts[i as int] == t@,
                    strict_failure(ts, vals, phs, i as nat) is None,
                    first_missing(t@.variables, vals, pv) == first_missing(
                        t@.variables,
                        vals,
                        pv.skip(j as int),
                    ),
            {
                let ph = &phs_i[j];
                assert(pv[j as int] == ph@);
                assert(pv.skip(j as int)[0] == ph@);
                assert(pv.skip(j as int).drop_first() =~= pv.skip(j + 1));
                if !self.variables.contains_key(ph.as_str()) {
                    let lacking = match t.variables.get(ph.as_str()) {
                        Some(var) => var.default.is_none(),
                        None => true,
                    };
                    if lacking {
                        let msg = strict_message_exec(t, ph);
                        assert(first_missing(t@.variables, vals, pv) == Some(ph@));
                        assert(strict_failure(ts, vals, phs, (i + 1) as nat) == Some(msg@));
                        proof {
                            lemma_strict_failure_some(ts, vals, phs, (i + 1) as nat, n as nat);
                        }
                        return Some(msg);
                    }
                }
            }
            assert(pv.skip(m as int) =~= Seq::<Seq<char>>::empty());
        }
        None
    }

    /// `compile`, given the placeholders of every template.
    pub fn compile_with_placeholders(&self, placeholders: &Vec<Vec<String>>) -> (r: Result<
        String,
        CompileError,
    >)
        requires
            placeholders@.len() == self@.templates.len(),
        ensures
            compile_result_is(r, compile_spec(self@, placeholders_view(placeholders@))),
    {
        if self.templates.len() == 0 {
            return Err(CompileError::Empty);
        }
        if self.strict_validation {
            match self.strict_check(placeholders) {
                Some(msg) => {
                    return Err(CompileError::Validation(msg));
                },
                None => {},
            }
        }
        let outputs = match self.render_all(placeholders) {
            Ok(o) => o,
            Err(e) => {
                return Err(CompileError::TypeError(e.to_string()));
            },
        };
        let result = join_strings(&outputs, self.separator.as_str());
        match &self.token_budget {
            Some(budget) => {
                if !budget.is_within_budget(result.as_str()) {
                    return Ok(budget.truncate_to_budget(result.as_str()));
                }
                Ok(result)
            },
            None => Ok(result),
        }
    }

    /// The composer with one stage per template.
    fn build_composer(&self, sep: String) -> (c: PromptComposer)
        ensures
            c@ == (ComposerModel { separator: sep@, ..pipeline_of(self@) }),
    {
        let mut c = PromptComposer::new().with_separator(sep.as_str());
        match &self.token_budget {
            Some(b) => {
                c = c.with_token_budget(*b);
            },
            None => {},
        }
        let n = self.templates.len();
        assert(pipeline_of(self@).stages.take(0) =~= Seq::<StageModel>::empty());
        for i in 0..n
            invariant
                n == self.templates@.len(),
                c@ == (ComposerModel {
                    stages: pipeline_of(self@).stages.take(i as int),
                    separator: sep@,
                    token_budget: self@.token_budget,
                }),
        {
            let ghost before = c@;
            c = c.add_stage(self.templates[i].duplicate());
            assert(pipeline_of(self@).stages.take(i + 1) =~= before.stages.push(
                StageModel { template: self.templates@[i as int]@, label: Some(self.templates@[i as int]@.name) },
            ));
        }
        assert(pipeline_of(self@).stages.take(n as int) =~= pipeline_of(self@).stages);
        c
    }

    /// Compile through the composer: one stage per template, joined with
    /// the separator, an over-budget output being an error.
    pub fn compile_pipelined(&self) -> (r: Result<String, CompileError>)
        ensures
            compile_result_is(
                r,
                as_compile_result(
                    self@,
                    compose_spec(pipeline_of(self@), self@.variables, template_placeholders(self@)),
                ),
            ),
    {
        if self.templates.len() == 0 {
            return Err(CompileError::Empty);
        }
        let composer = self.build_composer(self.separator.duplicate());
        assert(crate::composer::stage_placeholders(composer@) =~= template_placeholders(self@));
        match composer.compose(&self.variables) {
            Ok(s) => Ok(s),
            Err(e) => Err(CompileError::Composition(e)),
        }
    }

    /// Compile in chained mode: each template's output is available to the
    /// next as `{{previous_output}}`; the result is the last output.
    pub fn compile_chained(&self) -> (r: Result<String, CompileError>)
        ensures
            compile_result_is(
                r,
                as_compile_result(
                    self@,
                    compose_chained_spec(chain_of(self@), self@.variables, template_placeholders(self@)),
                ),
            ),
    {
        if self.templates.len() == 0 {
            return Err(CompileError::Empty);
        }
        let mut sep = String::new();
        push_chars(&mut sep, ['\n', '\n'].as_slice());
        assert(['\n', '\n']@ =~= default_separator());
        let composer = self.build_composer(sep);
        assert(crate::composer::stage_placeholders(composer@) =~= template_placeholders(self@));
        match composer.compose_chained(&self.variables) {
            Ok(s) => Ok(s),
            Err(e) => Err(CompileError::Composition(e)),
        }
    }
}

/// The entries after inserting the first `n` entries of `vars`, in order.
pub open spec fn insert_all(
    base: Seq<(Seq<char>, Seq<char>)>,
    vars: Seq<(Seq<char>, Seq<char>)>,
    n: nat,
) -> Seq<(Seq<char>, Seq<char>)>
    decreases n,
{
    if n == 0 || n > vars.len() {
        base
    } else {
        insert_entry(insert_all(base, vars, (n - 1) as nat), vars[n - 1].0, vars[n - 1].1)
    }
}

impl Default for PromptCompiler {
    fn default() -> (c: Self)
        ensures
            c@.templates == Seq::<TemplateModel>::empty(),
            c@.variables == Seq::<(Seq<char>, Seq<char>)>::empty(),
            c@.token_budget is None,
            c@.separator == default_separator(),
            !c@.strict,
    {
        Self::new()
    }
}

// ---------------------------------------------------------------------------
// Laws
// ---------------------------------------------------------------------------

proof fn lemma_strict_failure_none(
    templates: Seq<TemplateModel>,
    values: Seq<(Seq<char>, Seq<char>)>,
    phs: Seq<Seq<Seq<char>>>,
    n: nat,
)
    requires
        strict_failure(templates, values, phs, n) is None,
    ensures
        forall|i: int|
            0 <= i < n ==> crate::template::all_filled(
                #[trigger] templates[i].variables,
                values,
                phs[i],
            ),
    decreases n,
{
    if n > 0 {
        lemma_strict_failure_none(templates, values, phs, (n - 1) as nat);
        crate::template::lemma_first_missing(templates[n - 1].variables, values, phs[n - 1]);
    }
}

/// A compiler with no templates refuses to compile.
pub proof fn law_compile_empty(c: CompilerModel, phs: Seq<Seq<Seq<char>>>)
    requires
        c.templates.len() == 0,
    ensures
        compile_spec(c, phs) == Err::<Seq<char>, CompileErrorModel>(CompileErrorModel::Empty),
{
}

/// In strict mode, a compiled prompt comes only from templates whose every
/// placeholder has a value or a default.
pub proof fn law_strict_compile_fills_everything(c: CompilerModel, phs: Seq<Seq<Seq<char>>>)
    requires
        c.strict,
        compile_spec(c, phs) is Ok,
    ensures
        forall|i: int|
            0 <= i < c.templates.len() ==> crate::template::all_filled(
                #[trigger] c.templates[i].variables,
                c.variables,
                phs[i],
            ),
{
    lemma_strict_failure_none(c.templates, c.variables, phs, c.templates.len());
}

/// A compiled prompt is the joined output of the templates, or a prefix of
/// it when the budget truncated it; under a budget it always fits.
pub proof fn law_compile_output_is_prefix(c: CompilerModel, phs: Seq<Seq<Seq<char>>>)
    requires
        compile_spec(c, phs) is Ok,
    ensures
        joined_output(c, phs) is Some,
        compile_spec(c, phs)->Ok_0 == joined_output(c, phs)->Some_0.take(
            compile_spec(c, phs)->Ok_0.len() as int,
        ),
        c.token_budget is None ==> compile_spec(c, phs)->Ok_0 == joined_output(c, phs)->Some_0,
        c.token_budget matches Some(b) ==> within_budget(b, compile_spec(c, phs)->Ok_0),
{
    let text = joined_output(c, phs)->Some_0;
    match c.token_budget {
        Some(b) => {
            if !within_budget(b, text) {
                crate::token_budget::law_truncate_is_prefix(b, text);
                crate::token_budget::law_truncate_fits(b, text);
            } else {
                assert(text.take(text.len() as int) =~= text);
            }
        },
        None => {
            assert(text.take(text.len() as int) =~= text);
        },
    }
}

proof fn lemma_stages_match_templates(
    c: CompilerModel,
    phs: Seq<Seq<Seq<char>>>,
    n: nat,
)
    requires
        n <= c.templates.len(),
    ensures
        crate::composer::render_stages(pipeline_of(c).stages, c.variables, phs, n) is Ok
            <==> render_templates(c.templates, c.variables, phs, n) is Ok,
        crate::composer::render_stages(pipeline_of(c).stages, c.variables, phs, n) is Ok
            ==> crate::composer::render_stages(pipeline_of(c).stages, c.variables, phs, n)->Ok_0
            == render_templates(c.templates, c.variables, phs, n)->Ok_0,
    decreases n,
{
    if n > 0 {
        lemma_stages_match_templates(c, phs, (n - 1) as nat);
        assert(pipeline_of(c).stages[n - 1].template == c.templates[n - 1]);
    }
}

/// Every placeholder of every template has a value or a default.
pub open spec fn all_templates_filled(c: CompilerModel, phs: Seq<Seq<Seq<char>>>) -> bool {
    forall|i: int|
        0 <= i < c.templates.len() ==> crate::template::all_filled(
            #[trigger] c.templates[i].variables,
            c.variables,
            phs[i],
        )
}

/// Strict validation finds no failure among the first `n` templates exactly
/// when each of them has every placeholder filled.
proof fn lemma_strict_failure_iff(
    templates: Seq<TemplateModel>,
    values: Seq<(Seq<char>, Seq<char>)>,
    phs: Seq<Seq<Seq<char>>>,
    n: nat,
)
    ensures
        strict_failure(templates, values, phs, n) is None <==> forall|i: int|
            0 <= i < n ==> crate::template::all_filled(
                #[trigger] templates[i].variables,
                values,
                phs[i],
            ),
    decreases n,
{
    if n > 0 {
        lemma_strict_failure_iff(templates, values, phs, (n - 1) as nat);
        crate::template::lemma_first_missing(templates[n - 1].variables, values, phs[n - 1]);
    }
}

/// Strict compilation is plain compilation, except that it fails with the
/// first strict-validation message when some placeholder has neither a
/// value nor a default.
pub proof fn law_strict_agrees_with_lenient(c: CompilerModel, phs: Seq<Seq<Seq<char>>>)
    ensures
        compile_spec(CompilerModel { strict: true, ..c }, phs) == if c.templates.len() > 0
            && !all_templates_filled(c, phs) {
            Err(
                CompileErrorModel::Validation(
                    strict_failure(c.templates, c.variables, phs, c.templates.len())->0,
                ),
            )
        } else {
            compile_spec(CompilerModel { strict: false, ..c }, phs)
        },
{
    lemma_strict_failure_iff(c.templates, c.variables, phs, c.templates.len());
}

/// When every template renders, every placeholder has a value or a default.
proof fn lemma_rendered_templates_filled(
    templates: Seq<TemplateModel>,
    values: Seq<(Seq<char>, Seq<char>)>,
    phs: Seq<Seq<Seq<char>>>,
    n: nat,
)
    requires
        render_templates(templates, values, phs, n) is Ok,
    ensures
        forall|i: int|
            0 <= i < n ==> crate::template::all_filled(
                #[trigger] templates[i].variables,
                values,
                phs[i],
            ),
    decreases n,
{
    if n > 0 {
        lemma_rendered_templates_filled(templates, values, phs, (n - 1) as nat);
        crate::template::lemma_first_missing(templates[n - 1].variables, values, phs[n - 1]);
    }
}

/// Strict and plain compilation succeed together and then give the same
/// prompt: where a placeholder has neither a value nor a default, plain
/// compilation fails too (rendering reports it missing).
pub proof fn law_strict_and_lenient_succeed_together(c: CompilerModel, phs: Seq<Seq<Seq<char>>>)
    ensures
        compile_spec(CompilerModel { strict: true, ..c }, phs) is Ok <==> compile_spec(
            CompilerModel { strict: false, ..c },
            phs,
        ) is Ok,
        compile_spec(CompilerModel { strict: true, ..c }, phs) is Ok ==> compile_spec(
            CompilerModel { strict: true, ..c },
            phs,
        ) == compile_spec(CompilerModel { strict: false, ..c }, phs),
        c.templates.len() > 0 && !all_templates_filled(c, phs) ==> compile_spec(
            CompilerModel { strict: false, ..c },
            phs,
        ) is Err && compile_spec(CompilerModel { strict: false, ..c }, phs)->Err_0 is TypeError,
{
    lemma_strict_failure_iff(c.templates, c.variables, phs, c.templates.len());
    if render_templates(c.templates, c.variables, phs, c.templates.len()) is Ok {
        lemma_rendered_templates_filled(c.templates, c.variables, phs, c.templates.len());
    }
}

/// Compiling through the pipeline and compiling directly agree: the
/// pipeline succeeds exactly when direct compilation succeeds without
/// truncating, and then both give the same prompt; when the joined output is
/// over the budget, direct compilation truncates it while the pipeline
/// refuses it; the pipeline reports an empty compiler exactly when there
/// are no templates.
pub proof fn law_pipelined_agrees_with_compile(c: CompilerModel, phs: Seq<Seq<Seq<char>>>)
    ensures
        as_compile_result(c, compose_spec(pipeline_of(c), c.variables, phs)) == Err::<
            Seq<char>,
            CompileErrorModel,
        >(CompileErrorModel::Empty) <==> c.templates.len() == 0,
        compose_spec(pipeline_of(c), c.variables, phs) is Ok <==> {
            &&& compile_spec(c, phs) is Ok
            &&& (c.token_budget matches Some(b) ==> within_budget(b, joined_output(c, phs)->Some_0))
        },
        compose_spec(pipeline_of(c), c.variables, phs) is Ok ==> compile_spec(c, phs) == Ok::<
            Seq<char>,
            CompileErrorModel,
        >(compose_spec(pipeline_of(c), c.variables, phs)->Ok_0),
        compile_spec(c, phs) is Ok && (c.token_budget matches Some(b) && !within_budget(
            b,
            joined_output(c, phs)->Some_0,
        )) ==> compose_spec(pipeline_of(c), c.variables, phs) matches Err(
            CompositionErrorModel::TokenBudgetExceeded { .. },
        ),
{
    lemma_strict_failure_iff(c.templates, c.variables, phs, c.templates.len());
    lemma_stages_match_templates(c, phs, c.templates.len());
    if render_templates(c.templates, c.variables, phs, c.templates.len()) is Ok {
        lemma_rendered_templates_filled(c.templates, c.variables, phs, c.templates.len());
    }
    if c.templates.len() > 0 {
        match render_templates(c.templates, c.variables, phs, c.templates.len()) {
            Ok(outs) => {
                let text = join(outs, c.separator);
                match c.token_budget {
                    Some(b) => {
                        if within_budget(b, text) {
                            crate::token_budget::law_truncate_keeps_fitting_text(b, text);
                        }
                    },
                    None => {},
                }
            },
            Err(_) => {},
        }
    }
}

} // verus!
