//! Prompt templates with `{{variable}}` placeholders and typed variables.
use vstd::prelude::*;

use crate::number::{is_float_literal, parses_as_float};
use crate::strmap::{has_key, insert_entry, lookup, Duplicate, StrMap};
use crate::text::{chars_of, copy_string, push_str, replace_all, replace_chars, string_of, str_eq};

verus! {

// ---------------------------------------------------------------------------
// Outside calls
// ---------------------------------------------------------------------------

/// The names that the regular expression `\{\{(\w+)\}\}` captures in `text`,
/// one per match, matches taken left to right without overlap.
pub uninterp spec fn placeholder_names(text: Seq<char>) -> Seq<Seq<char>>;

/// Calls `regex::Regex::new` on the pattern `\{\{(\w+)\}\}` and collects
/// capture group 1 of each item of `Regex::captures_iter(text)`, in order.
/// The contract names that list `placeholder_names(text@)`; what the regex
/// crate matches (Unicode `\w`, leftmost-first) is not spelled out here.
#[verifier::external_body]
fn regex_placeholder_names(text: &str) -> (names: Vec<String>)
    ensures
        names.deep_view() == placeholder_names(text@),
{
    let re = regex::Regex::new(r"\{\{(\w+)\}\}").unwrap();
    re.captures_iter(text).map(|c| c[1].to_string()).collect()
}

/// The text that `format!("{:?}", items)` produces for a list of strings.
pub uninterp spec fn debug_string_list(items: Seq<Seq<char>>) -> Seq<char>;

/// `Debug` formatting of a `Vec<String>` through `format!("{:?}", items)`.
/// The contract names the result `debug_string_list(items)`; the escaping
/// rules of `str`'s `Debug` are not spelled out here.
#[verifier::external_body]
fn debug_list(items: &Vec<String>) -> (r: String)
    ensures
        r@ == debug_string_list(items.deep_view()),
{
    format!("{:?}", items)
}

// ---------------------------------------------------------------------------
// Models
// ---------------------------------------------------------------------------

/// The mathematical value of a [`VariableType`].
pub enum VarTypeModel {
    Text,
    Number,
    OneOf(Seq<Seq<char>>),
}

/// The mathematical value of a [`Variable`].
pub struct VariableModel {
    pub name: Seq<char>,
    pub var_type: VarTypeModel,
    pub default: Option<Seq<char>>,
    pub description: Option<Seq<char>>,
}

/// The mathematical value of a [`PromptTemplate`].
pub struct TemplateModel {
    pub id: Seq<char>,
    pub name: Seq<char>,
    pub template: Seq<char>,
    pub variables: Seq<(Seq<char>, VariableModel)>,
    pub metadata: Seq<(Seq<char>, Seq<char>)>,
}

/// The mathematical value of a [`RenderError`].
pub enum RenderErrorModel {
    MissingVariable(Seq<char>),
    TypeError { variable: Seq<char>, message: Seq<char> },
}

// ---------------------------------------------------------------------------
// Types
// ---------------------------------------------------------------------------

/// Supported types for template variables.
#[derive(Debug, Clone, PartialEq)]
pub enum VariableType {
    String,
    Number,
    Enum(Vec<String>),
}

/// A single variable definition within a template.
#[derive(Debug, Clone)]
pub struct Variable {
    pub name: String,
    pub var_type: VariableType,
    pub default: Option<String>,
    pub description: Option<String>,
}

/// A prompt template with `{{variable}}` placeholders.
#[derive(Debug, Clone)]
pub struct PromptTemplate {
    pub id: String,
    pub name: String,
    pub template: String,
    pub variables: StrMap<Variable>,
    pub metadata: StrMap<String>,
}

/// Why a template could not be rendered.
#[derive(Debug)]
pub enum RenderError {
    MissingVariable(String),
    TypeError { variable: String, message: String },
}

impl View for VariableType {
    type V = VarTypeModel;

    open spec fn view(&self) -> VarTypeModel {
        match self {
            VariableType::String => VarTypeModel::Text,
            VariableType::Number => VarTypeModel::Number,
            VariableType::Enum(vs) => VarTypeModel::OneOf(vs.deep_view()),
        }
    }
}

impl View for Variable {
    type V = VariableModel;

    open spec fn view(&self) -> VariableModel {
        VariableModel {
            name: self.name@,
            var_type: self.var_type@,
            default: self.default.deep_view(),
            description: self.description.deep_view(),
        }
    }
}

impl View for PromptTemplate {
    type V = TemplateModel;

    open spec fn view(&self) -> TemplateModel {
        TemplateModel {
            id: self.id@,
            name: self.name@,
            template: self.template@,
            variables: self.variables@,
            metadata: self.metadata@,
        }
    }
}

impl View for RenderError {
    type V = RenderErrorModel;

    open spec fn view(&self) -> RenderErrorModel {
        match self {
            RenderError::MissingVariable(n) => RenderErrorModel::MissingVariable(n@),
            RenderError::TypeError { variable, message } => RenderErrorModel::TypeError {
                variable: variable@,
                message: message@,
            },
        }
    }
}

fn copy_opt(o: &Option<String>) -> (r: Option<String>)
    ensures
        r.deep_view() == o.deep_view(),
{
    match o {
        Some(s) => Some(s.duplicate()),
        None => None,
    }
}

fn copy_strings(v: &Vec<String>) -> (r: Vec<String>)
    ensures
        r.deep_view() == v.deep_view(),
{
    let mut r: Vec<String> = Vec::new();
    let n = v.len();
    for i in 0..n
        invariant
            n == v@.len(),
            r@.len() == i,
            forall|j: int| 0 <= j < i ==> (#[trigger] r@[j])@ == v@[j]@,
    {
        r.push(v[i].duplicate());
    }
    assert(r.deep_view() =~= v.deep_view());
    r
}

impl Duplicate for VariableType {
    fn duplicate(&self) -> (r: Self) {
        match self {
            VariableType::String => VariableType::String,
            VariableType::Number => VariableType::Number,
            VariableType::Enum(vs) => VariableType::Enum(copy_strings(vs)),
        }
    }
}

impl Duplicate for Variable {
    fn duplicate(&self) -> (r: Self) {
        Variable {
            name: self.name.duplicate(),
            var_type: self.var_type.duplicate(),
            default: copy_opt(&self.default),
            description: copy_opt(&self.description),
        }
    }
}

impl Duplicate for PromptTemplate {
    fn duplicate(&self) -> (r: Self) {
        PromptTemplate {
            id: self.id.duplicate(),
            name: self.name.duplicate(),
            template: self.template.duplicate(),
            variables: self.variables.duplicate(),
            metadata: self.metadata.duplicate(),
        }
    }
}

// ---------------------------------------------------------------------------
// Specifications
// ---------------------------------------------------------------------------

/// The placeholder text `{{name}}`.
pub open spec fn token(name: Seq<char>) -> Seq<char> {
    seq!['{', '{'] + name + seq!['}', '}']
}

/// The message for a value that is not a number.
pub open spec fn not_a_number_message(value: Seq<char>) -> Seq<char> {
    "Expected number, got: "@ + value
}

/// The message for a value outside the allowed ones.
pub open spec fn not_allowed_message(value: Seq<char>, allowed: Seq<Seq<char>>) -> Seq<char> {
    "Value '"@ + value + "' not in allowed values: "@ + debug_string_list(allowed)
}

/// Whether `value` fits the variable type, and the message when it does not.
pub open spec fn type_check(t: VarTypeModel, value: Seq<char>) -> Result<(), Seq<char>> {
    match t {
        VarTypeModel::Text => Ok(()),
        VarTypeModel::Number => if is_float_literal(value) {
            Ok(())
        } else {
            Err(not_a_number_message(value))
        },
        VarTypeModel::OneOf(allowed) => if allowed.contains(value) {
            Ok(())
        } else {
            Err(not_allowed_message(value, allowed))
        },
    }
}

/// Placeholder `ph` has neither a value nor a default: it is given no value
/// and is either undeclared or declared without a default.
pub open spec fn lacks_value(
    vars: Seq<(Seq<char>, VariableModel)>,
    values: Seq<(Seq<char>, Seq<char>)>,
    ph: Seq<char>,
) -> bool {
    &&& !has_key(values, ph)
    &&& match lookup(vars, ph) {
        Some(v) => v.default is None,
        None => true,
    }
}

/// The first placeholder (in order) that lacks a value, if any.
pub open spec fn first_missing(
    vars: Seq<(Seq<char>, VariableModel)>,
    values: Seq<(Seq<char>, Seq<char>)>,
    phs: Seq<Seq<char>>,
) -> Option<Seq<char>>
    decreases phs.len(),
{
    if phs.len() == 0 {
        None
    } else if lacks_value(vars, values, phs[0]) {
        Some(phs[0])
    } else {
        first_missing(vars, values, phs.drop_first())
    }
}

/// The first given value (in the order of `values`) whose declared variable
/// type rejects it, with the message.
pub open spec fn first_type_error(
    vars: Seq<(Seq<char>, VariableModel)>,
    values: Seq<(Seq<char>, Seq<char>)>,
) -> Option<(Seq<char>, Seq<char>)>
    decreases values.len(),
{
    if values.len() == 0 {
        None
    } else {
        match lookup(vars, values[0].0) {
            Some(v) => match type_check(v.var_type, values[0].1) {
                Err(m) => Some((values[0].0, m)),
                Ok(_) => first_type_error(vars, values.drop_first()),
            },
            None => first_type_error(vars, values.drop_first()),
        }
    }
}

/// `s` after replacing each `{{name}}` of `values` by its value, one name
/// after the other in the order of `values`.
pub open spec fn apply_values(s: Seq<char>, values: Seq<(Seq<char>, Seq<char>)>) -> Seq<char>
    decreases values.len(),
{
    if values.len() == 0 {
        s
    } else {
        replace_all(
            apply_values(s, values.drop_last()),
            token(values.last().0),
            values.last().1,
        )
    }
}

/// The default that fills placeholder `ph`: given no value and declared with
/// a default.
pub open spec fn default_for(
    vars: Seq<(Seq<char>, VariableModel)>,
    values: Seq<(Seq<char>, Seq<char>)>,
    ph: Seq<char>,
) -> Option<Seq<char>> {
    if has_key(values, ph) {
        None
    } else {
        match lookup(vars, ph) {
            Some(v) => v.default,
            None => None,
        }
    }
}

/// `s` after replacing, for each placeholder of `phs` in order, `{{ph}}` by
/// its default where `default_for` gives one.
pub open spec fn apply_defaults(
    s: Seq<char>,
    vars: Seq<(Seq<char>, VariableModel)>,
    values: Seq<(Seq<char>, Seq<char>)>,
    phs: Seq<Seq<char>>,
) -> Seq<char>
    decreases phs.len(),
{
    if phs.len() == 0 {
        s
    } else {
        let prev = apply_defaults(s, vars, values, phs.drop_last());
        match default_for(vars, values, phs.last()) {
            Some(d) => replace_all(prev, token(phs.last()), d),
            None => prev,
        }
    }
}

/// The outcome of rendering template `t` with `values`, given the template's
/// placeholders `phs`.
pub open spec fn render_spec(
    t: TemplateModel,
    values: Seq<(Seq<char>, Seq<char>)>,
    phs: Seq<Seq<char>>,
) -> Result<Seq<char>, RenderErrorModel> {
    match first_missing(t.variables, values, phs) {
        Some(ph) => Err(RenderErrorModel::MissingVariable(ph)),
        None => match first_type_error(t.variables, values) {
            Some((name, m)) => Err(RenderErrorModel::TypeError { variable: name, message: m }),
            None => Ok(apply_defaults(apply_values(t.template, values), t.variables, values, phs)),
        },
    }
}

/// A rendering result agrees with its model.
pub open spec fn render_result_is(
    r: Result<String, RenderError>,
    m: Result<Seq<char>, RenderErrorModel>,
) -> bool {
    match (r, m) {
        (Ok(s), Ok(ms)) => s@ == ms,
        (Err(e), Err(me)) => e@ == me,
        _ => false,
    }
}

/// The text of a render error (what its `Display` shows).
pub open spec fn render_error_text(e: RenderErrorModel) -> Seq<char> {
    match e {
        RenderErrorModel::MissingVariable(n) => "Missing variable: "@ + n,
        RenderErrorModel::TypeError { variable, message } => "Type error for variable '"@
            + variable + "': "@ + message,
    }
}

// ---------------------------------------------------------------------------
// Implementation
// ---------------------------------------------------------------------------

impl VariableType {
    /// Validate that a value matches this type.
    pub fn validate(&self, value: &str) -> (r: Result<(), String>)
        ensures
            match (r, type_check(self@, value@)) {
                (Ok(_), Ok(_)) => true,
                (Err(m), Err(mm)) => m@ == mm,
                _ => false,
            },
    {
        match self {
            VariableType::String => Ok(()),
            VariableType::Number => {
                if parses_as_float(value) {
                    Ok(())
                } else {
                    let mut m = copy_string("Expected number, got: ");
                    push_str(&mut m, value);
                    Err(m)
                }
            },
            VariableType::Enum(variants) => {
                assert(self@ == VarTypeModel::OneOf(variants.deep_view()));
                let n = variants.len();
                let ghost vv = variants.deep_view();
                for i in 0..n
                    invariant
                        n == variants@.len(),
                        vv == variants.deep_view(),
                        self@ == VarTypeModel::OneOf(vv),
                        forall|j: int| 0 <= j < i ==> vv[j] != value@,
                {
                    assert(vv[i as int] == variants@[i as int]@);
                    if str_eq(variants[i].as_str(), value) {
                        assert(vv.contains(value@));
                        assert(self@ == VarTypeModel::OneOf(vv));
                        return Ok(());
                    }
                }
                let mut m = copy_string("Value '");
                push_str(&mut m, value);
                push_str(&mut m, "' not in allowed values: ");
                let list = debug_list(variants);
                push_str(&mut m, list.as_str());
                Err(m)
            },
        }
    }
}

impl RenderError {
    /// The text of this error (what `Display` shows).
    pub fn to_string(&self) -> (s: String)
        ensures
            s@ == render_error_text(self@),
    {
        match self {
            RenderError::MissingVariable(n) => {
                let mut s = copy_string("Missing variable: ");
                push_str(&mut s, n.as_str());
                s
            },
            RenderError::TypeError { variable, message } => {
                let mut s = copy_string("Type error for variable '");
                push_str(&mut s, variable.as_str());
                push_str(&mut s, "': ");
                push_str(&mut s, message.as_str());
                s
            },
        }
    }
}

fn token_chars(name: &str) -> (r: Vec<char>)
    ensures
        r@ == token(name@),
        r@.len() > 0,
{
    let mut r: Vec<char> = Vec::new();
    r.push('{');
    r.push('{');
    let v = chars_of(name);
    let n = v.len();
    for i in 0..n
        invariant
            n == v@.len(),
            r@ == seq!['{', '{'] + v@.take(i as int),
    {
        r.push(v[i]);
        assert(v@.take(i as int).push(v@[i as int]) =~= v@.take(i + 1));
    }
    r.push('}');
    r.push('}');
    assert(v@.take(n as int) =~= v@);
    assert(r@ =~= token(name@));
    r
}

impl PromptTemplate {
    /// Create a new template with no variables and no metadata.
    pub fn new(id: &str, name: &str, template: &str) -> (t: Self)
        ensures
            t@.id == id@,
            t@.name == name@,
            t@.template == template@,
            t@.variables == Seq::<(Seq<char>, VariableModel)>::empty(),
            t@.metadata == Seq::<(Seq<char>, Seq<char>)>::empty(),
    {
        PromptTemplate {
            id: copy_string(id),
            name: copy_string(name),
            template: copy_string(template),
            variables: StrMap::new(),
            metadata: StrMap::new(),
        }
    }

    /// Add a variable definition to this template, replacing any earlier
    /// definition with the same name.
    pub fn with_variable(self, var: Variable) -> (t: Self)
        ensures
            t@.id == self@.id,
            t@.name == self@.name,
            t@.template == self@.template,
            t@.variables == insert_entry(self@.variables, var@.name, var@),
            t@.metadata == self@.metadata,
    {
        let mut t = self;
        let key = var.name.duplicate();
        t.variables.insert(key, var);
        t
    }

    /// Extract all placeholder names from the template string, in order of
    /// appearance, repeats included.
    pub fn placeholders(&self) -> (names: Vec<String>)
        ensures
            names.deep_view() == placeholder_names(self@.template),
    {
        regex_placeholder_names(self.template.as_str())
    }

    /// Render the template with the given variable values.
    pub fn render(&self, values: &StrMap<String>) -> (r: Result<String, RenderError>)
        ensures
            render_result_is(r, render_spec(self@, values@, placeholder_names(self@.template))),
    {
        let phs = self.placeholders();
        self.render_with_placeholders(values, &phs)
    }

    /// Render the template with the given values, `phs` being its
    /// placeholders.
    pub fn render_with_placeholders(&self, values: &StrMap<String>, phs: &Vec<String>) -> (r:
        Result<String, RenderError>)
        ensures
            render_result_is(r, render_spec(self@, values@, phs.deep_view())),
    {
        let ghost vars = self@.variables;
        let ghost vals = values@;
        let ghost ps = phs.deep_view();
        // Missing variables.
        let n = phs.len();
        assert(ps.skip(0) =~= ps);
        for i in 0..n
            invariant
                n == phs@.len(),
                ps == phs.deep_view(),
                vars == self@.variables,
                vals == values@,
                first_missing(vars, vals, ps) == first_missing(vars, vals, ps.skip(i as int)),
        {
            let ph = &phs[i];
            assert(ps[i as int] == ph@);
            assert(ps.skip(i as int)[0] == ph@);
            assert(ps.skip(i as int).drop_first() =~= ps.skip(i + 1));
            if !values.contains_key(ph.as_str()) {
                let missing = match self.variables.get(ph.as_str()) {
                    Some(var) => var.default.is_none(),
                    None => true,
                };
                if missing {
                    return Err(RenderError::MissingVariable(ph.duplicate()));
                }
            }
        }
        assert(ps.skip(n as int) =~= Seq::<Seq<char>>::empty());
        // Types of the given values.
        let m = values.len();
        assert(vals.skip(0) =~= vals);
        for i in 0..m
            invariant
                m == vals.len(),
                vars == self@.variables,
                vals == values@,
                ps == phs.deep_view(),
                first_missing(vars, vals, ps) is None,
                first_type_error(vars, vals) == first_type_error(vars, vals.skip(i as int)),
        {
            let name = values.key_at(i);
            let value = values.value_at(i);
            assert(vals.skip(i as int)[0] == vals[i as int]);
            assert(vals.skip(i as int).drop_first() =~= vals.skip(i + 1));
            match self.variables.get(name.as_str()) {
                Some(var) => {
                    assert(lookup(vars, vals[i as int].0) == Some(var@));
                    let vr = var.var_type.validate(value.as_str());
                    assert(var@.var_type == var.var_type@);
                    match vr {
                        Err(msg) => {
                            assert(type_check(var@.var_type, vals[i as int].1) == Err::<(), Seq<char>>(msg@));
                            assert(first_type_error(vars, vals.skip(i as int)) == Some((vals[i as int].0, msg@)));
                            return Err(
                                RenderError::TypeError { variable: name.duplicate(), message: msg },
                            );
                        },
                        Ok(_) => {},
                    }
                },
                None => {},
            }
        }
        assert(vals.skip(m as int) =~= Seq::<(Seq<char>, Seq<char>)>::empty());
        // Replace the given values.
        let mut result = chars_of(self.template.as_str());
        for i in 0..m
            invariant
                m == vals.len(),
                vals == values@,
                result@ == apply_values(self@.template, vals.take(i as int)),
        {
            let name = values.key_at(i);
            let value = values.value_at(i);
            let tok = token_chars(name.as_str());
            let val = chars_of(value.as_str());
            assert(vals.take(i + 1).drop_last() =~= vals.take(i as int));
            result = replace_chars(result.as_slice(), tok.as_slice(), val.as_slice());
        }
        assert(vals.take(m as int) =~= vals);
        // Fill defaults for the placeholders without values.
        let ghost after_values = result@;
        for i in 0..n
            invariant
                n == phs@.len(),
                ps == phs.deep_view(),
                vars == self@.variables,
                vals == values@,
                result@ == apply_defaults(after_values, vars, vals, ps.take(i as int)),
        {
            let ph = &phs[i];
            assert(ps[i as int] == ph@);
            assert(ps.take(i + 1).drop_last() =~= ps.take(i as int));
            assert(ps.take(i + 1).last() == ph@);
            if !values.contains_key(ph.as_str()) {
                match self.variables.get(ph.as_str()) {
                    Some(var) => {
                        match &var.default {
                            Some(d) => {
                                let tok = token_chars(ph.as_str());
                                let dv = chars_of(d.as_str());
                                result = replace_chars(result.as_slice(), tok.as_slice(), dv.as_slice());
                            },
                            None => {},
                        }
                    },
                    None => {},
                }
            }
        }
        assert(ps.take(n as int) =~= ps);
        Ok(string_of(result.as_slice()))
    }
}

// ---------------------------------------------------------------------------
// Laws
// ---------------------------------------------------------------------------

/// Every placeholder has a value or a default.
pub open spec fn all_filled(
    vars: Seq<(Seq<char>, VariableModel)>,
    values: Seq<(Seq<char>, Seq<char>)>,
    phs: Seq<Seq<char>>,
) -> bool {
    forall|i: int| 0 <= i < phs.len() ==> !lacks_value(vars, values, #[trigger] phs[i])
}

/// Every given value fits the type of the variable it is given for.
pub open spec fn all_well_typed(
    vars: Seq<(Seq<char>, VariableModel)>,
    values: Seq<(Seq<char>, Seq<char>)>,
) -> bool {
    forall|i: int|
        0 <= i < values.len() ==> (lookup(vars, (#[trigger] values[i]).0) matches Some(v) ==> type_check(
            v.var_type,
            values[i].1,
        ) is Ok)
}

pub proof fn lemma_first_missing(
    vars: Seq<(Seq<char>, VariableModel)>,
    values: Seq<(Seq<char>, Seq<char>)>,
    phs: Seq<Seq<char>>,
)
    ensures
        first_missing(vars, values, phs) is None <==> all_filled(vars, values, phs),
        first_missing(vars, values, phs) matches Some(ph) ==> lacks_value(vars, values, ph),
    decreases phs.len(),
{
    if phs.len() > 0 {
        lemma_first_missing(vars, values, phs.drop_first());
        if !lacks_value(vars, values, phs[0]) {
            if all_filled(vars, values, phs.drop_first()) {
                assert forall|i: int| 0 <= i < phs.len() implies !lacks_value(vars, values, #[trigger] phs[i]) by {
                    if i > 0 {
                        assert(phs[i] == phs.drop_first()[i - 1]);
                    }
                }
            } else {
                let i = choose|i: int| 0 <= i < phs.drop_first().len() && lacks_value(vars, values, #[trigger] phs.drop_first()[i]);
                assert(phs[i + 1] == phs.drop_first()[i]);
            }
        }
    }
}

pub proof fn lemma_first_type_error(
    vars: Seq<(Seq<char>, VariableModel)>,
    values: Seq<(Seq<char>, Seq<char>)>,
)
    ensures
        first_type_error(vars, values) is None <==> all_well_typed(vars, values),
    decreases values.len(),
{
    if values.len() > 0 {
        lemma_first_type_error(vars, values.drop_first());
        let ok0 = lookup(vars, values[0].0) matches Some(v) ==> type_check(v.var_type, values[0].1) is Ok;
        if ok0 {
            if all_well_typed(vars, values.drop_first()) {
                assert forall|i: int| 0 <= i < values.len() implies (lookup(vars, (#[trigger] values[i]).0) matches Some(v) ==> type_check(
                    v.var_type,
                    values[i].1,
                ) is Ok) by {
                    if i > 0 {
                        assert(values[i] == values.drop_first()[i - 1]);
                    }
                }
            } else {
                let i = choose|i: int| 0 <= i < values.drop_first().len() && !(lookup(vars, (#[trigger] values.drop_first()[i]).0) matches Some(v) ==> type_check(
                    v.var_type,
                    values.drop_first()[i].1,
                ) is Ok);
                assert(values[i + 1] == values.drop_first()[i]);
            }
        }
    }
}

/// Rendering succeeds exactly when every placeholder has a value or a
/// default and every given value fits its variable's declared type; a
/// missing value is reported before a badly typed one.
pub proof fn law_render_succeeds_iff(
    t: TemplateModel,
    values: Seq<(Seq<char>, Seq<char>)>,
    phs: Seq<Seq<char>>,
)
    ensures
        render_spec(t, values, phs) is Ok <==> all_filled(t.variables, values, phs) && all_well_typed(
            t.variables,
            values,
        ),
        !all_filled(t.variables, values, phs) ==> render_spec(t, values, phs) is Err
            && render_spec(t, values, phs)->Err_0 is MissingVariable,
        all_filled(t.variables, values, phs) && !all_well_typed(t.variables, values) ==> render_spec(
            t,
            values,
            phs,
        ) is Err && render_spec(t, values, phs)->Err_0 is TypeError,
{
    lemma_first_missing(t.variables, values, phs);
    lemma_first_type_error(t.variables, values);
}

/// The placeholder `first_missing` reports is the first one, in order, that
/// lacks a value.
proof fn lemma_first_missing_position(
    vars: Seq<(Seq<char>, VariableModel)>,
    values: Seq<(Seq<char>, Seq<char>)>,
    phs: Seq<Seq<char>>,
)
    requires
        first_missing(vars, values, phs) is Some,
    ensures
        exists|k: int|
            0 <= k < phs.len() && #[trigger] phs[k] == first_missing(vars, values, phs)->0
                && lacks_value(vars, values, phs[k]) && forall|j: int|
                0 <= j < k ==> !lacks_value(vars, values, #[trigger] phs[j]),
    decreases phs.len(),
{
    if lacks_value(vars, values, phs[0]) {
        assert(phs[0] == first_missing(vars, values, phs)->0);
    } else {
        let rest = phs.drop_first();
        lemma_first_missing_position(vars, values, rest);
        let k = choose|k: int|
            0 <= k < rest.len() && #[trigger] rest[k] == first_missing(vars, values, rest)->0
                && lacks_value(vars, values, rest[k]) && forall|j: int|
                0 <= j < k ==> !lacks_value(vars, values, #[trigger] rest[j]);
        assert(phs[k + 1] == rest[k]);
        assert forall|j: int| 0 <= j < k + 1 implies !lacks_value(vars, values, #[trigger] phs[j]) by {
            if j > 0 {
                assert(phs[j] == rest[j - 1]);
            }
        }
    }
}

/// The value `first_type_error` reports is the first one, in the order of
/// the values, whose declared type rejects it, with that type's message.
proof fn lemma_first_type_error_position(
    vars: Seq<(Seq<char>, VariableModel)>,
    values: Seq<(Seq<char>, Seq<char>)>,
)
    requires
        first_type_error(vars, values) is Some,
    ensures
        exists|k: int|
            0 <= k < values.len() && (#[trigger] values[k]).0 == (first_type_error(vars, values)->0).0
                && lookup(vars, values[k].0) is Some && type_check(
                (lookup(vars, values[k].0)->0).var_type,
                values[k].1,
            ) == Err::<(), Seq<char>>((first_type_error(vars, values)->0).1) && forall|j: int|
                0 <= j < k ==> (lookup(vars, (#[trigger] values[j]).0) matches Some(v) ==> type_check(
                    v.var_type,
                    values[j].1,
                ) is Ok),
    decreases values.len(),
{
    let ok0 = lookup(vars, values[0].0) matches Some(v) ==> type_check(v.var_type, values[0].1) is Ok;
    if !ok0 {
        assert(values[0].0 == (first_type_error(vars, values)->0).0);
    } else {
        let rest = values.drop_first();
        lemma_first_type_error_position(vars, rest);
        let k = choose|k: int|
            0 <= k < rest.len() && (#[trigger] rest[k]).0 == (first_type_error(vars, rest)->0).0
                && lookup(vars, rest[k].0) is Some && type_check(
                (lookup(vars, rest[k].0)->0).var_type,
                rest[k].1,
            ) == Err::<(), Seq<char>>((first_type_error(vars, rest)->0).1) && forall|j: int|
                0 <= j < k ==> (lookup(vars, (#[trigger] rest[j]).0) matches Some(v) ==> type_check(
                    v.var_type,
                    rest[j].1,
                ) is Ok);
        assert(values[k + 1] == rest[k]);
        assert forall|j: int| 0 <= j < k + 1 implies (lookup(vars, (#[trigger] values[j]).0) matches Some(
            v,
        ) ==> type_check(v.var_type, values[j].1) is Ok) by {
            if j > 0 {
                assert(values[j] == rest[j - 1]);
            }
        }
    }
}

/// Rendering reports the first failure: the first placeholder, in order,
/// with neither a value nor a default (a placeholder without a definition
/// counts, unless given a value); else the first given value, in the order
/// of the values, that its declared variable type rejects, with that
/// type's message (values for names the template does not use are checked
/// too, defaults never).
pub proof fn law_render_reports_first_failure(
    t: TemplateModel,
    values: Seq<(Seq<char>, Seq<char>)>,
    phs: Seq<Seq<char>>,
)
    ensures
        render_spec(t, values, phs) matches Err(RenderErrorModel::MissingVariable(p0)) ==> exists|k: int|
            0 <= k < phs.len() && #[trigger] phs[k] == p0 && lacks_value(t.variables, values, p0)
                && forall|j: int| 0 <= j < k ==> !lacks_value(t.variables, values, #[trigger] phs[j]),
        render_spec(t, values, phs) is Err && render_spec(t, values, phs)->Err_0 is MissingVariable
            <==> !all_filled(t.variables, values, phs),
        render_spec(t, values, phs) matches Err(RenderErrorModel::TypeError { variable, message })
            ==> exists|k: int|
            0 <= k < values.len() && (#[trigger] values[k]).0 == variable && lookup(
                t.variables,
                variable,
            ) is Some && type_check((lookup(t.variables, variable)->0).var_type, values[k].1) == Err::<
                (),
                Seq<char>,
            >(message) && forall|j: int|
                0 <= j < k ==> (lookup(t.variables, (#[trigger] values[j]).0) matches Some(v)
                    ==> type_check(v.var_type, values[j].1) is Ok),
{
    lemma_first_missing(t.variables, values, phs);
    lemma_first_type_error(t.variables, values);
    if first_missing(t.variables, values, phs) is Some {
        lemma_first_missing_position(t.variables, values, phs);
    } else if first_type_error(t.variables, values) is Some {
        lemma_first_type_error_position(t.variables, values);
    }
}

/// What each variable type accepts: a text variable any value; a number
/// variable exactly the decimal literals that `str::parse::<f64>` accepts,
/// else the "Expected number" message; an enumeration exactly its allowed
/// values, each of them, and any other value with the message that names it
/// and the allowed values.
pub proof fn law_type_check_accepts(t: VarTypeModel, value: Seq<char>)
    ensures
        t is Text ==> type_check(t, value) is Ok,
        t is Number ==> (type_check(t, value) is Ok <==> is_float_literal(value)),
        t is Number && type_check(t, value) is Err ==> type_check(t, value)->Err_0 == "Expected number, got: "@
            + value,
        t matches VarTypeModel::OneOf(allowed) ==> (type_check(t, value) is Ok <==> exists|i: int|
            0 <= i < allowed.len() && #[trigger] allowed[i] == value),
        t is OneOf && type_check(t, value) is Err ==> type_check(t, value)->Err_0 == "Value '"@
            + value + "' not in allowed values: "@ + debug_string_list(t->OneOf_0),
{
}

/// A placeholder that is given no value and is declared without a default
/// makes rendering fail.
pub proof fn law_missing_required_value_fails(
    t: TemplateModel,
    values: Seq<(Seq<char>, Seq<char>)>,
    phs: Seq<Seq<char>>,
    i: int,
)
    requires
        0 <= i < phs.len(),
        !has_key(values, phs[i]),
        lookup(t.variables, phs[i]) matches Some(v) ==> v.default is None,
    ensures
        render_spec(t, values, phs) is Err,
{
    lemma_first_missing(t.variables, values, phs);
    assert(lacks_value(t.variables, values, phs[i]));
}

/// A given value outside its variable's allowed values (or, for a number
/// variable, not a number) makes rendering fail.
pub proof fn law_ill_typed_value_fails(
    t: TemplateModel,
    values: Seq<(Seq<char>, Seq<char>)>,
    phs: Seq<Seq<char>>,
    i: int,
)
    requires
        0 <= i < values.len(),
        lookup(t.variables, values[i].0) matches Some(v) && type_check(v.var_type, values[i].1) is Err,
    ensures
        render_spec(t, values, phs) is Err,
{
    lemma_first_missing(t.variables, values, phs);
    lemma_first_type_error(t.variables, values);
}

/// With nothing to fill, rendering returns the template text unchanged.
pub proof fn law_render_without_placeholders(t: TemplateModel)
    ensures
        render_spec(t, seq![], seq![]) == Ok::<Seq<char>, RenderErrorModel>(t.template),
{
}

} // verus!
