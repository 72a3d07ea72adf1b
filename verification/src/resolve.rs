//! Evaluation of expressions against a snapshot of the environment.

use vstd::prelude::*;
use vstd::hash_map::StringHashMap;
use crate::ast::{Expression, Identifier};
use crate::numeric::{is_float, is_float_text, parse_i64, parsed_i64};
use crate::text::{append_chars, from_chars, str_eq, to_chars};
use crate::value::{
    entries_model, lemma_put_models, map_entries, models, put, BamlMap, BamlValue, ValueModel,
};

verus! {

/// A snapshot of the environment: names with their values. The caller
/// supplies it; nothing here reads the environment of the process.
pub struct Environment {
    vars: StringHashMap<String>,
}

impl View for Environment {
    type V = Map<Seq<char>, Seq<char>>;

    closed spec fn view(&self) -> Map<Seq<char>, Seq<char>> {
        self.vars@.map_values(|v: String| v@)
    }
}

impl Environment {
    /// A snapshot without variables.
    pub fn new() -> (env: Environment)
        ensures
            env@ == Map::<Seq<char>, Seq<char>>::empty(),
    {
        let env = Environment { vars: StringHashMap::new() };
        assert(env@ =~= Map::empty());
        env
    }

    /// Sets the variable `name` to `value`.
    pub fn insert(&mut self, name: String, value: String)
        ensures
            final(self)@ == old(self)@.insert(name@, value@),
    {
        self.vars.insert(name, value);
        assert(self@ =~= old(self)@.insert(name@, value@));
    }

    /// Whether the variable is set.
    pub fn contains_key(&self, name: &str) -> (r: bool)
        ensures
            r == self@.contains_key(name@),
    {
        self.vars.contains_key(name)
    }

    /// The value of the variable, if it is set.
    pub fn get(&self, name: &str) -> (r: Option<&String>)
        ensures
            match r {
                Some(v) => self@.contains_key(name@) && v@ == self@[name@],
                None => !self@.contains_key(name@),
            },
    {
        self.vars.get(name)
    }
}

/// Why an expression has no value of the kind that was asked for.
#[derive(Debug, PartialEq)]
pub enum ResolveError {
    /// The expression is no boolean.
    ExpectedBool,
    /// The expression is no string.
    ExpectedString,
    /// The environment has no variable of this name.
    EnvVarNotFound(String),
    /// The text is neither an integer nor a floating-point number.
    InvalidNumeric(String),
}

/// The mathematical content of a [`ResolveError`].
pub enum ResolveErrorView {
    ExpectedBool,
    ExpectedString,
    EnvVarNotFound(Seq<char>),
    InvalidNumeric(Seq<char>),
}

impl View for ResolveError {
    type V = ResolveErrorView;

    open spec fn view(&self) -> ResolveErrorView {
        match self {
            ResolveError::ExpectedBool => ResolveErrorView::ExpectedBool,
            ResolveError::ExpectedString => ResolveErrorView::ExpectedString,
            ResolveError::EnvVarNotFound(s) => ResolveErrorView::EnvVarNotFound(s@),
            ResolveError::InvalidNumeric(s) => ResolveErrorView::InvalidNumeric(s@),
        }
    }
}

impl ResolveError {
    /// The wording of the error.
    pub open spec fn message_spec(&self) -> Seq<char> {
        match self {
            ResolveError::ExpectedBool => "Expected bool value"@,
            ResolveError::ExpectedString => "Expected string value"@,
            ResolveError::EnvVarNotFound(s) => "Environment variable "@ + s@ + " not found"@,
            ResolveError::InvalidNumeric(s) => "Invalid numeric value: "@ + s@,
        }
    }

    /// The wording of the error.
    pub fn message(&self) -> (m: String)
        ensures
            m@ == self.message_spec(),
    {
        match self {
            ResolveError::ExpectedBool => "Expected bool value".to_string(),
            ResolveError::ExpectedString => "Expected string value".to_string(),
            ResolveError::EnvVarNotFound(s) => {
                let mut out = to_chars("Environment variable ");
                append_chars(&mut out, &to_chars(s.as_str()));
                append_chars(&mut out, &to_chars(" not found"));
                from_chars(&out)
            },
            ResolveError::InvalidNumeric(s) => {
                let mut out = to_chars("Invalid numeric value: ");
                append_chars(&mut out, &to_chars(s.as_str()));
                from_chars(&out)
            },
        }
    }
}

/// What a plain name evaluates to: `true`, `false` and `null` are the
/// literals, any other name is itself as a string.
pub open spec fn local_value(name: Seq<char>) -> ValueModel {
    if name == "true"@ {
        ValueModel::Bool(true)
    } else if name == "false"@ {
        ValueModel::Bool(false)
    } else if name == "null"@ {
        ValueModel::Null
    } else {
        ValueModel::String(name)
    }
}

/// What a number evaluates to: an integer where the text is one that fits
/// into 64 bits, else a floating-point number where the text is one.
pub open spec fn numeric_value(text: Seq<char>) -> Result<ValueModel, ResolveErrorView> {
    match parsed_i64(text) {
        Some(i) => Ok(ValueModel::Int(i)),
        None => if is_float_text(text) {
            Ok(ValueModel::Float(text))
        } else {
            Err(ResolveErrorView::InvalidNumeric(text))
        },
    }
}

/// The value of a number written as `text`.
pub fn resolve_numeric(text: &str) -> (r: Result<BamlValue, ResolveError>)
    ensures
        match r {
            Ok(v) => numeric_value(text@) matches Ok(m) && models(v, m),
            Err(e) => numeric_value(text@) == Err::<ValueModel, ResolveErrorView>(e@),
        },
{
    let chars = to_chars(text);
    match parse_i64(&chars) {
        Some(i) => Ok(BamlValue::Int(i)),
        None => if is_float(&chars) {
            Ok(BamlValue::Float(text.to_string()))
        } else {
            Err(ResolveError::InvalidNumeric(text.to_string()))
        },
    }
}

impl Expression {
    /// The boolean that the expression stands for: a boolean literal is its
    /// value, a variable of the environment is whether it is set.
    pub open spec fn as_bool_spec(&self, env: Map<Seq<char>, Seq<char>>) -> Result<
        bool,
        ResolveErrorView,
    > {
        match self {
            Expression::Bool(b) => Ok(*b),
            Expression::Identifier(Identifier::ENV(s)) => Ok(env.contains_key(s@)),
            _ => Err(ResolveErrorView::ExpectedBool),
        }
    }

    /// The string that the expression stands for: a string literal is its
    /// text, a variable of the environment its value, any other name itself.
    pub open spec fn as_string_spec(&self, env: Map<Seq<char>, Seq<char>>) -> Result<
        Seq<char>,
        ResolveErrorView,
    > {
        match self {
            Expression::String(s) => Ok(s@),
            Expression::RawString(s) => Ok(s.value@),
            Expression::Identifier(Identifier::ENV(s)) => if env.contains_key(s@) {
                Ok(env[s@])
            } else {
                Err(ResolveErrorView::EnvVarNotFound(s@))
            },
            Expression::Identifier(idn) => Ok(idn.name_spec()),
            _ => Err(ResolveErrorView::ExpectedString),
        }
    }

    /// The value of the expression. Lists and mappings take the values of
    /// their parts in order; the first part without a value decides the error.
    pub open spec fn resolve_spec(&self, env: Map<Seq<char>, Seq<char>>) -> Result<
        ValueModel,
        ResolveErrorView,
    >
        decreases self,
    {
        match self {
            Expression::Identifier(idn) => match idn {
                Identifier::ENV(s) => if env.contains_key(s@) {
                    Ok(ValueModel::String(env[s@]))
                } else {
                    Err(ResolveErrorView::EnvVarNotFound(s@))
                },
                Identifier::Local(r) => Ok(local_value(r@)),
                _ => Ok(ValueModel::String(idn.name_spec())),
            },
            Expression::Bool(b) => Ok(ValueModel::Bool(*b)),
            Expression::Mapping(m) => match resolve_entries(m@, env, m@.len()) {
                Ok(es) => Ok(ValueModel::Mapping(es)),
                Err(e) => Err(e),
            },
            Expression::List(l) => match resolve_items(l@, env, l@.len()) {
                Ok(vs) => Ok(ValueModel::List(vs)),
                Err(e) => Err(e),
            },
            Expression::RawString(s) => Ok(ValueModel::String(s.value@)),
            Expression::String(s) => Ok(ValueModel::String(s@)),
            Expression::Numeric(n) => numeric_value(n@),
        }
    }

    /// Evaluates the expression as a boolean.
    pub fn as_bool(&self, env_values: &Environment) -> (r: Result<bool, ResolveError>)
        ensures
            match r {
                Ok(b) => self.as_bool_spec(env_values@) == Ok::<bool, ResolveErrorView>(b),
                Err(e) => self.as_bool_spec(env_values@) == Err::<bool, ResolveErrorView>(e@),
            },
    {
        match self {
            Expression::Bool(b) => Ok(*b),
            Expression::Identifier(Identifier::ENV(s)) => Ok(env_values.contains_key(s.as_str())),
            _ => Err(ResolveError::ExpectedBool),
        }
    }

    /// Evaluates the expression as a string.
    pub fn as_string_value(&self, env_values: &Environment) -> (r: Result<String, ResolveError>)
        ensures
            match r {
                Ok(s) => self.as_string_spec(env_values@) == Ok::<Seq<char>, ResolveErrorView>(s@),
                Err(e) => self.as_string_spec(env_values@) == Err::<Seq<char>, ResolveErrorView>(
                    e@,
                ),
            },
    {
        match self {
            Expression::String(s) => Ok(s.clone()),
            Expression::RawString(s) => Ok(s.value.clone()),
            Expression::Identifier(Identifier::ENV(s)) => match env_values.get(s.as_str()) {
                Some(v) => Ok(v.clone()),
                None => Err(ResolveError::EnvVarNotFound(s.clone())),
            },
            Expression::Identifier(idn) => Ok(idn.name()),
            _ => Err(ResolveError::ExpectedString),
        }
    }

    /// Evaluates the expression.
    #[verifier::loop_isolation(false)]
    pub fn resolve(&self, env_values: &Environment) -> (r: Result<BamlValue, ResolveError>)
        ensures
            match r {
                Ok(v) => self.resolve_spec(env_values@) matches Ok(m) && models(v, m),
                Err(e) => self.resolve_spec(env_values@) == Err::<ValueModel, ResolveErrorView>(
                    e@,
                ),
            },
        decreases self,
    {
        match self {
            Expression::Identifier(idn) => match idn {
                Identifier::ENV(s) => match env_values.get(s.as_str()) {
                    Some(v) => Ok(BamlValue::String(v.clone())),
                    None => Err(ResolveError::EnvVarNotFound(s.clone())),
                },
                Identifier::Local(r) => {
                    if str_eq(r.as_str(), "true") {
                        Ok(BamlValue::Bool(true))
                    } else if str_eq(r.as_str(), "false") {
                        Ok(BamlValue::Bool(false))
                    } else if str_eq(r.as_str(), "null") {
                        Ok(BamlValue::Null)
                    } else {
                        Ok(BamlValue::String(r.clone()))
                    }
                },
                _ => Ok(BamlValue::String(idn.name())),
            },
            Expression::Bool(b) => Ok(BamlValue::Bool(*b)),
            Expression::Mapping(m) => {
                let mut map = BamlMap::new();
                let ghost mut es: Seq<(Seq<char>, ValueModel)> = Seq::empty();
                let mut i: usize = 0;
                while i < m.len()
                    invariant
                        i <= m.len(),
                        resolve_entries(m@, env_values@, i as nat) == Ok::<
                            Seq<(Seq<char>, ValueModel)>,
                            ResolveErrorView,
                        >(es),
                        entries_model(map_entries(map), es),
                    decreases m.len() - i,
                {
                    let key = match m[i].0.as_string_value(env_values) {
                        Ok(k) => k,
                        Err(e) => {
                            proof {
                                lemma_entries_error_stays(m@, env_values@, (i + 1) as nat, m@.len());
                            }
                            return Err(e);
                        },
                    };
                    let value = match m[i].1.resolve(env_values) {
                        Ok(v) => v,
                        Err(e) => {
                            proof {
                                lemma_entries_error_stays(m@, env_values@, (i + 1) as nat, m@.len());
                            }
                            return Err(e);
                        },
                    };
                    proof {
                        let content = m@[i as int].1.resolve_spec(env_values@)->Ok_0;
                        lemma_put_models(map_entries(map), es, key@, value, content);
                        es = put(es, key@, content);
                    }
                    map.insert(key, value);
                    i += 1;
                }
                Ok(BamlValue::Mapping(map))
            },
            Expression::List(l) => {
                let mut list: Vec<BamlValue> = Vec::new();
                let ghost mut ms: Seq<ValueModel> = Seq::empty();
                let mut i: usize = 0;
                while i < l.len()
                    invariant
                        i <= l.len(),
                        resolve_items(l@, env_values@, i as nat) == Ok::<
                            Seq<ValueModel>,
                            ResolveErrorView,
                        >(ms),
                        list@.len() == ms.len(),
                        forall|j: int| 0 <= j < ms.len() ==> models(list@[j], #[trigger] ms[j]),
                    decreases l.len() - i,
                {
                    let value = match l[i].resolve(env_values) {
                        Ok(v) => v,
                        Err(e) => {
                            proof {
                                lemma_items_error_stays(l@, env_values@, (i + 1) as nat, l@.len());
                            }
                            return Err(e);
                        },
                    };
                    proof {
                        ms = ms.push(l@[i as int].resolve_spec(env_values@)->Ok_0);
                    }
                    list.push(value);
                    i += 1;
                }
                Ok(BamlValue::List(list))
            },
            Expression::RawString(s) => Ok(BamlValue::String(s.value.clone())),
            Expression::String(s) => Ok(BamlValue::String(s.clone())),
            Expression::Numeric(n) => resolve_numeric(n.as_str()),
        }
    }
}

/// The values of the first `n` items, or the error of the first item among
/// them that has no value.
pub open spec fn resolve_items(l: Seq<Expression>, env: Map<Seq<char>, Seq<char>>, n: nat) -> Result<
    Seq<ValueModel>,
    ResolveErrorView,
>
    decreases l, n,
{
    if n == 0 || n > l.len() {
        Ok(Seq::empty())
    } else {
        match resolve_items(l, env, (n - 1) as nat) {
            Err(e) => Err(e),
            Ok(vs) => match l[n - 1].resolve_spec(env) {
                Err(e) => Err(e),
                Ok(v) => Ok(vs.push(v)),
            },
        }
    }
}

/// The entries made of the first `n` pairs, each key evaluated as a string
/// and then each value, or the first error met on the way.
pub open spec fn resolve_entries(
    m: Seq<(Expression, Expression)>,
    env: Map<Seq<char>, Seq<char>>,
    n: nat,
) -> Result<Seq<(Seq<char>, ValueModel)>, ResolveErrorView>
    decreases m, n,
{
    if n == 0 || n > m.len() {
        Ok(Seq::empty())
    } else {
        match resolve_entries(m, env, (n - 1) as nat) {
            Err(e) => Err(e),
            Ok(es) => match m[n - 1].0.as_string_spec(env) {
                Err(e) => Err(e),
                Ok(k) => match m[n - 1].1.resolve_spec(env) {
                    Err(e) => Err(e),
                    Ok(v) => Ok(put(es, k, v)),
                },
            },
        }
    }
}

/// An error among the first items is the error of the whole list.
pub proof fn lemma_items_error_stays(
    l: Seq<Expression>,
    env: Map<Seq<char>, Seq<char>>,
    n: nat,
    k: nat,
)
    requires
        n <= k <= l.len(),
        resolve_items(l, env, n) is Err,
    ensures
        resolve_items(l, env, k) == resolve_items(l, env, n),
    decreases k - n,
{
    if n < k {
        lemma_items_error_stays(l, env, n, (k - 1) as nat);
    }
}

/// An error among the first pairs is the error of the whole mapping.
pub proof fn lemma_entries_error_stays(
    m: Seq<(Expression, Expression)>,
    env: Map<Seq<char>, Seq<char>>,
    n: nat,
    k: nat,
)
    requires
        n <= k <= m.len(),
        resolve_entries(m, env, n) is Err,
    ensures
        resolve_entries(m, env, k) == resolve_entries(m, env, n),
    decreases k - n,
{
    if n < k {
        lemma_entries_error_stays(m, env, n, (k - 1) as nat);
    }
}

/// A variable of the environment read as a string is its value in the
/// snapshot and fails where the snapshot has none; read as a boolean it is
/// whether the snapshot has it, whatever its value.
pub proof fn lemma_env_lookup(name: String, env: Map<Seq<char>, Seq<char>>)
    ensures
        env.contains_key(name@) ==> Expression::Identifier(Identifier::ENV(name)).as_string_spec(
            env,
        ) == Ok::<Seq<char>, ResolveErrorView>(env[name@]),
        !env.contains_key(name@) ==> Expression::Identifier(Identifier::ENV(name)).as_string_spec(
            env,
        ) == Err::<Seq<char>, ResolveErrorView>(ResolveErrorView::EnvVarNotFound(name@)),
        Expression::Identifier(Identifier::ENV(name)).as_bool_spec(env) == Ok::<
            bool,
            ResolveErrorView,
        >(env.contains_key(name@)),
{
}

} // verus!
