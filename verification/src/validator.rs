//! Checks of templates, given values and pipelines for common issues.
use vstd::prelude::*;

use crate::composer::{stage_ids, PromptComposer};
use crate::strmap::{has_key, lookup, Duplicate, StrMap};
use crate::template::{
    lacks_value, placeholder_names, render_spec, PromptTemplate, TemplateModel, VariableModel,
};
use crate::text::{
    all_ws, chars_of, copy_string, decimal, is_blank, join, join_strings, push_decimal, push_str,
    str_eq,
};

verus! {

// ---------------------------------------------------------------------------
// Models
// ---------------------------------------------------------------------------

/// The mathematical value of a [`ValidationError`].
pub enum ValidationErrorModel {
    MissingVariable { template_id: Seq<char>, variable: Seq<char> },
    UndefinedVariable { template_id: Seq<char>, variable: Seq<char> },
    EmptySection { template_id: Seq<char>, section: Seq<char> },
    ExcessiveLength { template_id: Seq<char>, length: nat, max: nat },
    CircularReference { template_ids: Seq<Seq<char>> },
    DuplicateVariable { template_id: Seq<char>, variable: Seq<char> },
    InvalidTemplate { template_id: Seq<char>, reason: Seq<char> },
    EmptyPipeline,
}

/// The mathematical value of a [`PromptValidator`].
pub struct ValidatorModel {
    pub max_template_length: nat,
    pub max_pipeline_depth: nat,
}

// ---------------------------------------------------------------------------
// Types
// ---------------------------------------------------------------------------

/// Validation error with details about what went wrong.
#[derive(Debug, Clone, PartialEq)]
pub enum ValidationError {
    MissingVariable { template_id: String, variable: String },
    UndefinedVariable { template_id: String, variable: String },
    EmptySection { template_id: String, section: String },
    ExcessiveLength { template_id: String, length: usize, max: usize },
    CircularReference { template_ids: Vec<String> },
    DuplicateVariable { template_id: String, variable: String },
    InvalidTemplate { template_id: String, reason: String },
    EmptyPipeline,
}

/// Validates templates and compositions for common issues.
#[derive(Debug, Clone, Copy)]
pub struct PromptValidator {
    max_template_length: usize,
    max_pipeline_depth: usize,
}

impl View for ValidationError {
    type V = ValidationErrorModel;

    open spec fn view(&self) -> ValidationErrorModel {
        match self {
            ValidationError::MissingVariable { template_id, variable } =>
                ValidationErrorModel::MissingVariable {
                template_id: template_id@,
                variable: variable@,
            },
            ValidationError::UndefinedVariable { template_id, variable } =>
                ValidationErrorModel::UndefinedVariable {
                template_id: template_id@,
                variable: variable@,
            },
            ValidationError::EmptySection { template_id, section } =>
                ValidationErrorModel::EmptySection { template_id: template_id@, section: section@ },
            ValidationError::ExcessiveLength { template_id, length, max } =>
                ValidationErrorModel::ExcessiveLength {
                template_id: template_id@,
                length: *length as nat,
                max: *max as nat,
            },
            ValidationError::CircularReference { template_ids } =>
                ValidationErrorModel::CircularReference { template_ids: template_ids.deep_view() },
            ValidationError::DuplicateVariable { template_id, variable } =>
                ValidationErrorModel::DuplicateVariable {
                template_id: template_id@,
                variable: variable@,
            },
            ValidationError::InvalidTemplate { template_id, reason } =>
                ValidationErrorModel::InvalidTemplate { template_id: template_id@, reason: reason@ },
            ValidationError::EmptyPipeline => ValidationErrorModel::EmptyPipeline,
        }
    }
}

impl View for PromptValidator {
    type V = ValidatorModel;

    closed spec fn view(&self) -> ValidatorModel {
        ValidatorModel {
            max_template_length: self.max_template_length as nat,
            max_pipeline_depth: self.max_pipeline_depth as nat,
        }
    }
}

// ---------------------------------------------------------------------------
// Specifications
// ---------------------------------------------------------------------------

/// The models of a list of errors.
pub open spec fn errors_view(v: Seq<ValidationError>) -> Seq<ValidationErrorModel> {
    v.map_values(|e: ValidationError| e@)
}

/// One `DuplicateVariable` error for each placeholder that already occurred
/// earlier, in order.
pub open spec fn duplicate_errors(id: Seq<char>, phs: Seq<Seq<char>>) -> Seq<ValidationErrorModel>
    decreases phs.len(),
{
    if phs.len() == 0 {
        seq![]
    } else {
        let prev = duplicate_errors(id, phs.drop_last());
        if phs.drop_last().contains(phs.last()) {
            prev.push(ValidationErrorModel::DuplicateVariable { template_id: id, variable: phs.last() })
        } else {
            prev
        }
    }
}

/// One `UndefinedVariable` error for each placeholder occurrence that has no
/// variable definition, in order.
pub open spec fn undefined_errors(
    id: Seq<char>,
    vars: Seq<(Seq<char>, VariableModel)>,
    phs: Seq<Seq<char>>,
) -> Seq<ValidationErrorModel>
    decreases phs.len(),
{
    if phs.len() == 0 {
        seq![]
    } else {
        let prev = undefined_errors(id, vars, phs.drop_last());
        if !has_key(vars, phs.last()) {
            prev.push(ValidationErrorModel::UndefinedVariable { template_id: id, variable: phs.last() })
        } else {
            prev
        }
    }
}

/// The errors of `validate_template` for template `t` with placeholders
/// `phs`: duplicates, undefined placeholders, an empty body, excessive
/// length (in characters), in that order.
pub open spec fn template_errors(
    v: ValidatorModel,
    t: TemplateModel,
    phs: Seq<Seq<char>>,
) -> Seq<ValidationErrorModel> {
    let empty: Seq<ValidationErrorModel> = if all_ws(t.template) {
        seq![ValidationErrorModel::EmptySection { template_id: t.id, section: "template_body"@ }]
    } else {
        seq![]
    };
    let long: Seq<ValidationErrorModel> = if t.template.len() > v.max_template_length {
        seq![
            ValidationErrorModel::ExcessiveLength {
                template_id: t.id,
                length: t.template.len(),
                max: v.max_template_length,
            },
        ]
    } else {
        seq![]
    };
    duplicate_errors(t.id, phs) + undefined_errors(t.id, t.variables, phs) + empty + long
}

/// One `MissingVariable` error for each placeholder occurrence that is
/// given no value and is declared without a default, in order.
pub open spec fn missing_errors(
    id: Seq<char>,
    vars: Seq<(Seq<char>, VariableModel)>,
    values: Seq<(Seq<char>, Seq<char>)>,
    phs: Seq<Seq<char>>,
) -> Seq<ValidationErrorModel>
    decreases phs.len(),
{
    if phs.len() == 0 {
        seq![]
    } else {
        let prev = missing_errors(id, vars, values, phs.drop_last());
        let ph = phs.last();
        if !has_key(values, ph) && (lookup(vars, ph) matches Some(var) && var.default is None) {
            prev.push(ValidationErrorModel::MissingVariable { template_id: id, variable: ph })
        } else {
            prev
        }
    }
}

/// The first position `j < n` whose id already occurred before it.
pub open spec fn first_repeat(ids: Seq<Seq<char>>, n: nat) -> Option<nat>
    decreases n,
{
    if n == 0 {
        None
    } else {
        match first_repeat(ids, (n - 1) as nat) {
            Some(j) => Some(j),
            None => if ids.take(n - 1).contains(ids[n - 1]) {
                Some((n - 1) as nat)
            } else {
                None
            },
        }
    }
}

/// A circular reference when a template id repeats: the ids of the stages
/// up to and including the first repetition (`a -> b -> a`).
pub open spec fn circular_errors(ids: Seq<Seq<char>>) -> Seq<ValidationErrorModel> {
    match first_repeat(ids, ids.len()) {
        Some(j) => seq![ValidationErrorModel::CircularReference { template_ids: ids.take(j + 1 as int) }],
        None => seq![],
    }
}

/// The errors of `validate_pipeline` for a pipeline whose stages have the
/// template ids `ids`: an empty pipeline; else a pipeline deeper than the
/// maximum, then a circular reference.
pub open spec fn pipeline_errors(v: ValidatorModel, ids: Seq<Seq<char>>) -> Seq<ValidationErrorModel> {
    if ids.len() == 0 {
        seq![ValidationErrorModel::EmptyPipeline]
    } else {
        let deep: Seq<ValidationErrorModel> = if ids.len() > v.max_pipeline_depth {
            seq![
                ValidationErrorModel::ExcessiveLength {
                    template_id: "pipeline"@,
                    length: ids.len(),
                    max: v.max_pipeline_depth,
                },
            ]
        } else {
            seq![]
        };
        deep + circular_errors(ids)
    }
}

/// The text of a validation error (what its `Display` shows).
pub open spec fn validation_error_text(e: ValidationErrorModel) -> Seq<char> {
    match e {
        ValidationErrorModel::MissingVariable { template_id, variable } => "Template '"@
            + template_id + "': missing required variable '"@ + variable + "'"@,
        ValidationErrorModel::UndefinedVariable { template_id, variable } => "Template '"@
            + template_id + "': placeholder '"@ + variable + "' has no variable definition"@,
        ValidationErrorModel::EmptySection { template_id, section } => "Template '"@ + template_id
            + "': empty section '"@ + section + "'"@,
        ValidationErrorModel::ExcessiveLength { template_id, length, max } => "Template '"@
            + template_id + "': length "@ + decimal(length) + " exceeds max "@ + decimal(max),
        ValidationErrorModel::CircularReference { template_ids } =>
            "Circular reference detected: "@ + join(template_ids, " -> "@),
        ValidationErrorModel::DuplicateVariable { template_id, variable } => "Template '"@
            + template_id + "': duplicate variable '"@ + variable + "'"@,
        ValidationErrorModel::InvalidTemplate { template_id, reason } => "Template '"@
            + template_id + "': invalid template: "@ + reason,
        ValidationErrorModel::EmptyPipeline => "Empty pipeline: no stages to validate"@,
    }
}

// ---------------------------------------------------------------------------
// Implementation
// ---------------------------------------------------------------------------

impl ValidationError {
    /// The text of this error (what `Display` shows).
    pub fn to_string(&self) -> (s: String)
        ensures
            s@ == validation_error_text(self@),
    {
        match self {
            ValidationError::MissingVariable { template_id, variable } => {
                let mut s = copy_string("Template '");
                push_str(&mut s, template_id.as_str());
                push_str(&mut s, "': missing required variable '");
                push_str(&mut s, variable.as_str());
                push_str(&mut s, "'");
                s
            },
            ValidationError::UndefinedVariable { template_id, variable } => {
                let mut s = copy_string("Template '");
                push_str(&mut s, template_id.as_str());
                push_str(&mut s, "': placeholder '");
                push_str(&mut s, variable.as_str());
                push_str(&mut s, "' has no variable definition");
                s
            },
            ValidationError::EmptySection { template_id, section } => {
                let mut s = copy_string("Template '");
                push_str(&mut s, template_id.as_str());
                push_str(&mut s, "': empty section '");
                push_str(&mut s, section.as_str());
                push_str(&mut s, "'");
                s
            },
            ValidationError::ExcessiveLength { template_id, length, max } => {
                let mut s = copy_string("Template '");
                push_str(&mut s, template_id.as_str());
                push_str(&mut s, "': length ");
                push_decimal(&mut s, *length as u64);
                push_str(&mut s, " exceeds max ");
                push_decimal(&mut s, *max as u64);
                s
            },
            ValidationError::CircularReference { template_ids } => {
                let mut s = copy_string("Circular reference detected: ");
                let j = join_strings(template_ids, " -> ");
                push_str(&mut s, j.as_str());
                s
            },
            ValidationError::DuplicateVariable { template_id, variable } => {
                let mut s = copy_string("Template '");
                push_str(&mut s, template_id.as_str());
                push_str(&mut s, "': duplicate variable '");
                push_str(&mut s, variable.as_str());
                push_str(&mut s, "'");
                s
            },
            ValidationError::InvalidTemplate { template_id, reason } => {
                let mut s = copy_string("Template '");
                push_str(&mut s, template_id.as_str());
                push_str(&mut s, "': invalid template: ");
                push_str(&mut s, reason.as_str());
                s
            },
            ValidationError::EmptyPipeline => copy_string("Empty pipeline: no stages to validate"),
        }
    }
}

/// Whether `phs[i]` equals one of `phs[..i]`.
fn occurs_before(phs: &Vec<String>, i: usize) -> (r: bool)
    requires
        i < phs@.len(),
    ensures
        r == phs.deep_view().take(i as int).contains(phs.deep_view()[i as int]),
{
    let ghost pv = phs.deep_view();
    for j in 0..i
        invariant
            i < phs@.len(),
            pv == phs.deep_view(),
            forall|k: int| 0 <= k < j ==> pv[k] != pv[i as int],
    {
        assert(pv[j as int] == phs@[j as int]@);
        assert(pv[i as int] == phs@[i as int]@);
        if str_eq(phs[j].as_str(), phs[i].as_str()) {
            assert(pv.take(i as int)[j as int] == pv[i as int]);
            return true;
        }
    }
    assert forall|k: int| 0 <= k < pv.take(i as int).len() implies pv.take(i as int)[k] != pv[i as int] by {
        assert(pv.take(i as int)[k] == pv[k]);
    }
    false
}

impl PromptValidator {
    /// A validator with a maximum template length of 100 000 characters and a
    /// maximum pipeline depth of 50 stages.
    pub fn new() -> (v: Self)
        ensures
            v@ == (ValidatorModel { max_template_length: 100_000, max_pipeline_depth: 50 }),
    {
        PromptValidator { max_template_length: 100_000, max_pipeline_depth: 50 }
    }

    /// Set the maximum allowed template length in characters.
    pub fn with_max_length(self, max: usize) -> (v: Self)
        ensures
            v@ == (ValidatorModel { max_template_length: max as nat, ..self@ }),
    {
        PromptValidator { max_template_length: max, max_pipeline_depth: self.max_pipeline_depth }
    }

    /// Validate a single template.
    pub fn validate_template(&self, template: &PromptTemplate) -> (errors: Vec<ValidationError>)
        ensures
            errors_view(errors@) == template_errors(
                self@,
                template@,
                placeholder_names(template@.template),
            ),
    {
        let phs = template.placeholders();
        self.validate_template_with_placeholders(template, &phs)
    }

    /// `validate_template`, given the template's placeholders.
    pub fn validate_template_with_placeholders(
        &self,
        template: &PromptTemplate,
        phs: &Vec<String>,
    ) -> (errors: Vec<ValidationError>)
        ensures
            errors_view(errors@) == template_errors(self@, template@, phs.deep_view()),
    {
        let ghost pv = phs.deep_view();
        let ghost id = template@.id;
        let n = phs.len();
        let mut errors: Vec<ValidationError> = Vec::new();
        assert(errors_view(errors@) =~= Seq::<ValidationErrorModel>::empty());
        // Placeholders that occur more than once.
        for i in 0..n
            invariant
                n == phs@.len(),
                pv == phs.deep_view(),
                id == template@.id,
                errors_view(errors@) == duplicate_errors(id, pv.take(i as int)),
        {
            let ghost before = errors_view(errors@);
            assert(pv.take(i + 1).drop_last() =~= pv.take(i as int));
            assert(pv.take(i + 1).last() == pv[i as int]);
            if occurs_before(phs, i) {
                assert(pv[i as int] == phs@[i as int]@);
                errors.push(
                    ValidationError::DuplicateVariable {
                        template_id: template.id.duplicate(),
                        variable: phs[i].duplicate(),
                    },
                );
                assert(errors_view(errors@) =~= before.push(
                    ValidationErrorModel::DuplicateVariable { template_id: id, variable: pv[i as int] },
                ));
            }
        }
        assert(pv.take(n as int) =~= pv);
        let ghost dups = errors_view(errors@);
        // Placeholders without a variable definition.
        for i in 0..n
            invariant
                n == phs@.len(),
                pv == phs.deep_view(),
                id == template@.id,
                errors_view(errors@) == dups + undefined_errors(
                    id,
                    template@.variables,
                    pv.take(i as int),
                ),
        {
            let ghost before = errors_view(errors@);
            assert(pv.take(i + 1).drop_last() =~= pv.take(i as int));
            assert(pv.take(i + 1).last() == pv[i as int]);
            assert(pv[i as int] == phs@[i as int]@);
            if !template.variables.contains_key(phs[i].as_str()) {
                errors.push(
                    ValidationError::UndefinedVariable {
                        template_id: template.id.duplicate(),
                        variable: phs[i].duplicate(),
                    },
                );
                assert(errors_view(errors@) =~= before.push(
                    ValidationErrorModel::UndefinedVariable { template_id: id, variable: pv[i as int] },
                ));
            }
        }
        assert(pv.take(n as int) =~= pv);
        // An empty body.
        let body = chars_of(template.template.as_str());
        if is_blank(body.as_slice()) {
            errors.push(
                ValidationError::EmptySection {
                    template_id: template.id.duplicate(),
                    section: copy_string("template_body"),
                },
            );
        }
        // An excessive length.
        let len = body.len();
        if len > self.max_template_length {
            errors.push(
                ValidationError::ExcessiveLength {
                    template_id: template.id.duplicate(),
                    length: len,
                    max: self.max_template_length,
                },
            );
        }
        assert(errors_view(errors@) =~= template_errors(self@, template@, pv));
        errors
    }

    /// Validate that all required variables are provided: one error for
    /// each placeholder occurrence given no value whose variable is declared
    /// without a default.
    pub fn validate_variables(&self, template: &PromptTemplate, values: &StrMap<String>) -> (errors:
        Vec<ValidationError>)
        ensures
            errors_view(errors@) == missing_errors(
                template@.id,
                template@.variables,
                values@,
                placeholder_names(template@.template),
            ),
    {
        let phs = template.placeholders();
        self.validate_variables_with_placeholders(template, values, &phs)
    }

    /// `validate_variables`, given the template's placeholders.
    pub fn validate_variables_with_placeholders(
        &self,
        template: &PromptTemplate,
        values: &StrMap<String>,
        phs: &Vec<String>,
    ) -> (errors: Vec<ValidationError>)
        ensures
            errors_view(errors@) == missing_errors(
                template@.id,
                template@.variables,
                values@,
                phs.deep_view(),
            ),
    {
        let ghost pv = phs.deep_view();
        let ghost id = template@.id;
        let n = phs.len();
        let mut errors: Vec<ValidationError> = Vec::new();
        assert(errors_view(errors@) =~= Seq::<ValidationErrorModel>::empty());
        for i in 0..n
            invariant
                n == phs@.len(),
                pv == phs.deep_view(),
                id == template@.id,
                errors_view(errors@) == missing_errors(
                    id,
                    template@.variables,
                    values@,
                    pv.take(i as int),
                ),
        {
            let ghost before = errors_view(errors@);
            assert(pv.take(i + 1).drop_last() =~= pv.take(i as int));
            assert(pv.take(i + 1).last() == pv[i as int]);
            assert(pv[i as int] == phs@[i as int]@);
            let ph = &phs[i];
            if !values.contains_key(ph.as_str()) {
                match template.variables.get(ph.as_str()) {
                    Some(var) => {
                        if var.default.is_none() {
                            errors.push(
                                ValidationError::MissingVariable {
                                    template_id: template.id.duplicate(),
                                    variable: ph.duplicate(),
                                },
                            );
                            assert(errors_view(errors@) =~= before.push(
                                ValidationErrorModel::MissingVariable { template_id: id, variable: pv[i as int] },
                            ));
                        }
                    },
                    None => {},
                }
            }
        }
        assert(pv.take(n as int) =~= pv);
        errors
    }

    /// Validate an entire pipeline: it must have stages, no more than the
    /// maximum depth, and no template id twice (a circular reference).
    pub fn validate_pipeline(&self, composer: &PromptComposer) -> (errors: Vec<ValidationError>)
        ensures
            errors_view(errors@) == pipeline_errors(self@, stage_ids(composer@)),
    {
        let ids = composer.template_ids();
        let ghost pv = ids.deep_view();
        let mut errors: Vec<ValidationError> = Vec::new();
        let count = ids.len();
        if count == 0 {
            errors.push(ValidationError::EmptyPipeline);
            assert(errors_view(errors@) =~= pipeline_errors(self@, pv));
            return errors;
        }
        if count > self.max_pipeline_depth {
            errors.push(
                ValidationError::ExcessiveLength {
                    template_id: copy_string("pipeline"),
                    length: count,
                    max: self.max_pipeline_depth,
                },
            );
        }
        let ghost deep = errors_view(errors@);
        for i in 0..count
            invariant
                count == ids@.len(),
                pv == ids.deep_view(),
                pv == stage_ids(composer@),
                count > 0,
                deep == errors_view(errors@),
                pipeline_errors(self@, pv) == deep + circular_errors(pv),
                first_repeat(pv, i as nat) is None,
        {
            if occurs_before(&ids, i) {
                assert(first_repeat(pv, (i + 1) as nat) == Some((i) as nat));
                proof {
                    lemma_first_repeat_stays(pv, (i + 1) as nat, count as nat);
                }
                let mut chain: Vec<String> = Vec::new();
                for k in 0..i + 1
                    invariant
                        i < count == ids@.len(),
                        pv == ids.deep_view(),
                        chain.deep_view() == pv.take(k as int),
                {
                    let ghost before = chain.deep_view();
                    let id = ids[k].duplicate();
                    assert(pv[k as int] == id@);
                    chain.push(id);
                    assert(chain.deep_view() =~= before.push(id@));
                    assert(chain.deep_view() =~= pv.take(k + 1));
                }
                let ghost cv = chain.deep_view();
                errors.push(ValidationError::CircularReference { template_ids: chain });
                assert(errors_view(errors@) =~= deep.push(
                    ValidationErrorModel::CircularReference { template_ids: cv },
                ));
                assert(errors_view(errors@) =~= pipeline_errors(self@, pv));
                return errors;
            }
            assert(first_repeat(pv, (i + 1) as nat) is None);
        }
        assert(errors_view(errors@) =~= pipeline_errors(self@, pv));
        errors
    }

    /// Quick check: is the template valid with no errors?
    pub fn is_valid(&self, template: &PromptTemplate) -> (r: bool)
        ensures
            r == (template_errors(self@, template@, placeholder_names(template@.template)).len()
                == 0),
    {
        self.validate_template(template).len() == 0
    }
}

impl Default for PromptValidator {
    fn default() -> (v: Self)
        ensures
            v@ == (ValidatorModel { max_template_length: 100_000, max_pipeline_depth: 50 }),
    {
        Self::new()
    }
}

// ---------------------------------------------------------------------------
// Laws
// ---------------------------------------------------------------------------

/// No placeholder occurs twice.
pub open spec fn no_repeats(phs: Seq<Seq<char>>) -> bool {
    forall|i: int, j: int| 0 <= i < j < phs.len() ==> (#[trigger] phs[i]) != (#[trigger] phs[j])
}

/// Every placeholder has a variable definition.
pub open spec fn all_declared(vars: Seq<(Seq<char>, VariableModel)>, phs: Seq<Seq<char>>) -> bool {
    forall|i: int| 0 <= i < phs.len() ==> has_key(vars, #[trigger] phs[i])
}

proof fn lemma_duplicate_errors(id: Seq<char>, phs: Seq<Seq<char>>)
    ensures
        duplicate_errors(id, phs).len() == 0 <==> no_repeats(phs),
    decreases phs.len(),
{
    if phs.len() > 0 {
        let init = phs.drop_last();
        lemma_duplicate_errors(id, init);
        lemma_duplicate_errors_len(id, init);
        if no_repeats(phs) {
            assert(no_repeats(init)) by {
                assert forall|i: int, j: int| 0 <= i < j < init.len() implies (#[trigger] init[i]) != (#[trigger] init[j]) by {
                    assert(init[i] == phs[i] && init[j] == phs[j]);
                }
            }
            assert(!init.contains(phs.last())) by {
                if init.contains(phs.last()) {
                    let i = choose|i: int| 0 <= i < init.len() && init[i] == phs.last();
                    assert(phs[i] == init[i]);
                }
            }
        } else {
            let (i, j) = choose|i: int, j: int| 0 <= i < j < phs.len() && (#[trigger] phs[i]) == (#[trigger] phs[j]);
            if j == phs.len() - 1 {
                assert(init[i] == phs[i]);
                assert(init.contains(phs.last()));
            } else {
                assert(init[i] == phs[i] && init[j] == phs[j]);
                assert(!no_repeats(init));
            }
        }
    }
}

proof fn lemma_duplicate_errors_len(id: Seq<char>, phs: Seq<Seq<char>>)
    ensures
        duplicate_errors(id, phs).len() <= phs.len(),
    decreases phs.len(),
{
    if phs.len() > 0 {
        lemma_duplicate_errors_len(id, phs.drop_last());
    }
}

proof fn lemma_undefined_errors(id: Seq<char>, vars: Seq<(Seq<char>, VariableModel)>, phs: Seq<Seq<char>>)
    ensures
        undefined_errors(id, vars, phs).len() == 0 <==> all_declared(vars, phs),
    decreases phs.len(),
{
    if phs.len() > 0 {
        let init = phs.drop_last();
        lemma_undefined_errors(id, vars, init);
        if all_declared(vars, phs) {
            assert forall|i: int| 0 <= i < init.len() implies has_key(vars, #[trigger] init[i]) by {
                assert(init[i] == phs[i]);
            }
        } else if all_declared(vars, init) {
            let i = choose|i: int| 0 <= i < phs.len() && !has_key(vars, #[trigger] phs[i]);
            if i < phs.len() - 1 {
                assert(init[i] == phs[i]);
            }
        }
    }
}

/// A template is valid exactly when no placeholder repeats, every
/// placeholder is declared, the body is not blank and its length in
/// characters is within the maximum.
pub proof fn law_valid_template_iff(v: ValidatorModel, t: TemplateModel, phs: Seq<Seq<char>>)
    ensures
        template_errors(v, t, phs).len() == 0 <==> {
            &&& no_repeats(phs)
            &&& all_declared(t.variables, phs)
            &&& !all_ws(t.template)
            &&& t.template.len() <= v.max_template_length
        },
{
    lemma_duplicate_errors(t.id, phs);
    lemma_undefined_errors(t.id, t.variables, phs);
}

/// A placeholder that repeats an earlier one is reported as a duplicate.
pub proof fn law_repeat_is_flagged(v: ValidatorModel, t: TemplateModel, phs: Seq<Seq<char>>, i: int, j: int)
    requires
        0 <= i < j < phs.len(),
        phs[i] == phs[j],
    ensures
        template_errors(v, t, phs).contains(
            ValidationErrorModel::DuplicateVariable { template_id: t.id, variable: phs[j] },
        ),
{
    lemma_repeat_flagged(t.id, phs, i, j);
    let d = duplicate_errors(t.id, phs);
    let k = choose|k: int| 0 <= k < d.len() && d[k] == ValidationErrorModel::DuplicateVariable { template_id: t.id, variable: phs[j] };
    assert(template_errors(v, t, phs)[k] == d[k]);
}

/// Once an id repeats, later stages do not change the first repetition.
proof fn lemma_first_repeat_stays(ids: Seq<Seq<char>>, k: nat, m: nat)
    requires
        k <= m,
        first_repeat(ids, k) is Some,
    ensures
        first_repeat(ids, m) == first_repeat(ids, k),
    decreases m - k,
{
    if k < m {
        lemma_first_repeat_stays(ids, k, (m - 1) as nat);
    }
}

/// No repetition is found among the first `n` ids exactly when they are
/// all distinct; a repetition found is one.
proof fn lemma_first_repeat(ids: Seq<Seq<char>>, n: nat)
    requires
        n <= ids.len(),
    ensures
        first_repeat(ids, n) is None <==> no_repeats(ids.take(n as int)),
        first_repeat(ids, n) matches Some(j) ==> j < n && ids.take(j as int).contains(ids[j as int]),
    decreases n,
{
    if n > 0 {
        lemma_first_repeat(ids, (n - 1) as nat);
        let t = ids.take(n as int);
        let init = ids.take(n - 1);
        assert(t.drop_last() =~= init);
        assert(t.last() == ids[n - 1]);
        if no_repeats(t) {
            assert(no_repeats(init)) by {
                assert forall|i: int, j: int| 0 <= i < j < init.len() implies (#[trigger] init[i]) != (#[trigger] init[j]) by {
                    assert(init[i] == t[i] && init[j] == t[j]);
                }
            }
            assert(!init.contains(t.last())) by {
                if init.contains(t.last()) {
                    let i = choose|i: int| 0 <= i < init.len() && init[i] == t.last();
                    assert(t[i] == init[i]);
                }
            }
        } else {
            let (i, j) = choose|i: int, j: int| 0 <= i < j < t.len() && (#[trigger] t[i]) == (#[trigger] t[j]);
            if j == t.len() - 1 {
                assert(init[i] == t[i]);
                assert(init.contains(t.last()));
            } else {
                assert(init[i] == t[i] && init[j] == t[j]);
                assert(!no_repeats(init));
            }
        }
    }
}

/// A pipeline is reported circular exactly when a template id occurs twice;
/// the reported chain runs from the first stage to the first repetition,
/// whose id occurs earlier in the chain.
pub proof fn law_circular_iff_repeated_id(v: ValidatorModel, ids: Seq<Seq<char>>)
    requires
        ids.len() > 0,
    ensures
        circular_errors(ids).len() > 0 <==> !no_repeats(ids),
        first_repeat(ids, ids.len()) matches Some(j) ==> {
            &&& pipeline_errors(v, ids).last() == (ValidationErrorModel::CircularReference {
                template_ids: ids.take(j + 1 as int),
            })
            &&& ids.take(j as int).contains(ids[j as int])
        },
{
    lemma_first_repeat(ids, ids.len());
    assert(ids.take(ids.len() as int) =~= ids);
}

proof fn lemma_repeat_flagged(id: Seq<char>, phs: Seq<Seq<char>>, i: int, j: int)
    requires
        0 <= i < j < phs.len(),
        phs[i] == phs[j],
    ensures
        duplicate_errors(id, phs).contains(
            ValidationErrorModel::DuplicateVariable { template_id: id, variable: phs[j] },
        ),
    decreases phs.len(),
{
    let init = phs.drop_last();
    let e = ValidationErrorModel::DuplicateVariable { template_id: id, variable: phs[j] };
    if j == phs.len() - 1 {
        assert(init[i] == phs[i]);
        assert(init.contains(phs.last()));
        assert(duplicate_errors(id, phs).last() == e);
    } else {
        assert(init[i] == phs[i] && init[j] == phs[j]);
        lemma_repeat_flagged(id, init, i, j);
        let prev = duplicate_errors(id, init);
        let k = choose|k: int| 0 <= k < prev.len() && prev[k] == e;
        assert(duplicate_errors(id, phs)[k] == prev[k]);
    }
}

/// A reported missing variable is a placeholder that lacks a value.
proof fn lemma_missing_errors_lacking(
    id: Seq<char>,
    vars: Seq<(Seq<char>, VariableModel)>,
    values: Seq<(Seq<char>, Seq<char>)>,
    phs: Seq<Seq<char>>,
)
    requires
        missing_errors(id, vars, values, phs).len() > 0,
    ensures
        exists|i: int| 0 <= i < phs.len() && lacks_value(vars, values, #[trigger] phs[i]),
    decreases phs.len(),
{
    let init = phs.drop_last();
    if missing_errors(id, vars, values, init).len() > 0 {
        lemma_missing_errors_lacking(id, vars, values, init);
        let i = choose|i: int| 0 <= i < init.len() && lacks_value(vars, values, #[trigger] init[i]);
        assert(phs[i] == init[i]);
    } else {
        assert(lacks_value(vars, values, phs[phs.len() - 1]));
    }
}

/// When `validate_variables` reports a missing variable, rendering the
/// template with the same values fails with a missing variable.
pub proof fn law_missing_variables_fail_render(
    t: TemplateModel,
    values: Seq<(Seq<char>, Seq<char>)>,
    phs: Seq<Seq<char>>,
)
    ensures
        missing_errors(t.id, t.variables, values, phs).len() > 0 ==> render_spec(t, values, phs) is Err
            && render_spec(t, values, phs)->Err_0 is MissingVariable,
{
    if missing_errors(t.id, t.variables, values, phs).len() > 0 {
        lemma_missing_errors_lacking(t.id, t.variables, values, phs);
        crate::template::law_render_succeeds_iff(t, values, phs);
    }
}

/// The placeholders that `validate_variables` reports: given no value and
/// declared with no default.
pub open spec fn reported_missing(
    vars: Seq<(Seq<char>, VariableModel)>,
    values: Seq<(Seq<char>, Seq<char>)>,
) -> spec_fn(Seq<char>) -> bool {
    |p: Seq<char>| !has_key(values, p) && lookup(vars, p) is Some && (lookup(vars, p)->0).default is None
}

/// `validate_variables` reports one missing variable for each placeholder
/// occurrence, in order, that is given no value and is declared without a
/// default: every such occurrence, not only the first, and nothing else
/// (a placeholder without a definition is not reported).
pub proof fn law_missing_errors_each_occurrence(
    id: Seq<char>,
    vars: Seq<(Seq<char>, VariableModel)>,
    values: Seq<(Seq<char>, Seq<char>)>,
    phs: Seq<Seq<char>>,
)
    ensures
        missing_errors(id, vars, values, phs) == phs.filter(reported_missing(vars, values)).map_values(
            |p: Seq<char>| ValidationErrorModel::MissingVariable { template_id: id, variable: p },
        ),
        missing_errors(id, vars, values, phs).len() == phs.filter(reported_missing(vars, values)).len(),
    decreases phs.len(),
{
    reveal(Seq::filter);
    let f = |p: Seq<char>| ValidationErrorModel::MissingVariable { template_id: id, variable: p };
    let pred = reported_missing(vars, values);
    if phs.len() == 0 {
        assert(phs.filter(pred) =~= Seq::<Seq<char>>::empty());
        assert(phs.filter(pred).map_values(f) =~= Seq::<ValidationErrorModel>::empty());
    } else {
        law_missing_errors_each_occurrence(id, vars, values, phs.drop_last());
        let sub = phs.drop_last().filter(pred);
        let ph = phs.last();
        if pred(ph) {
            assert(phs.filter(pred) == sub.push(ph));
            assert(sub.push(ph).map_values(f) =~= sub.map_values(f).push(f(ph)));
        } else {
            assert(phs.filter(pred) == sub);
        }
    }
}

} // verus!
