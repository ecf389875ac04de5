//! Values: the one type that programs are read into and evaluate to.

use vstd::prelude::*;
use vstd::string::StringExecFns;
use vstd::utf8::encode_utf8;

verus! {

/// The native operations a `Function` value can name: those of the core
/// namespace, and those that a host provides.
#[derive(Clone, Copy, Debug, PartialEq, Eq, Structural)]
pub enum Builtin {
    Add,
    Subtract,
    Multiply,
    Divide,
    Println,
    Print,
    List,
    Count,
    Cons,
    Concat,
    First,
    Rest,
    Nth,
    IsNil,
    IsBool,
    IsSymbol,
    IsNumber,
    IsString,
    IsList,
    IsHash,
    IsFunction,
    IsMacro,
    Equal,
    Greater,
    Less,
    GreaterOrEqual,
    LessOrEqual,
    CompileString,
    Slurp,
    /// A native that the host of the machine provides, by its number.
    Host(u32),
}

/// Metadata attached to a value: symbol text to value. Nothing reads it.
pub type TypeMeta = Vec<(String, LispyType)>;

/// A value of the language, which is also the shape of a parsed form.
///
/// A `Number` holds the bit pattern of an IEEE-754 double. A `Lambda` holds the
/// index of the environment frame it was created in.
#[allow(inconsistent_fields)]
#[derive(Debug)]
pub enum LispyType {
    Nil { meta: TypeMeta },
    Bool { value: bool, meta: TypeMeta },
    Number { value: u64, meta: TypeMeta },
    Symbol { value: String, meta: TypeMeta },
    Keyword { value: String, meta: TypeMeta },
    String { value: String, meta: TypeMeta },
    List { collection: Vec<LispyType>, meta: TypeMeta },
    Hash { collection: Vec<(LispyType, LispyType)>, meta: TypeMeta },
    Error { error_type: String, message: String, meta: TypeMeta },
    Function { arity: Option<i32>, func: Builtin, meta: TypeMeta },
    Lambda {
        bindings: Vec<LispyType>,
        to_eval: Box<LispyType>,
        env: usize,
        is_macro: bool,
        meta: TypeMeta,
    },
}

/// The mathematical value that a `LispyType` stands for.
#[allow(inconsistent_fields)]
pub ghost enum Form {
    Nil { meta: Seq<(Seq<char>, Form)> },
    Bool { value: bool, meta: Seq<(Seq<char>, Form)> },
    Number { value: u64, meta: Seq<(Seq<char>, Form)> },
    Symbol { value: Seq<char>, meta: Seq<(Seq<char>, Form)> },
    Keyword { value: Seq<char>, meta: Seq<(Seq<char>, Form)> },
    String { value: Seq<char>, meta: Seq<(Seq<char>, Form)> },
    List { collection: Seq<Form>, meta: Seq<(Seq<char>, Form)> },
    Hash { collection: Seq<(Form, Form)>, meta: Seq<(Seq<char>, Form)> },
    Error { error_type: Seq<char>, message: Seq<char>, meta: Seq<(Seq<char>, Form)> },
    Function { arity: Option<i32>, func: Builtin, meta: Seq<(Seq<char>, Form)> },
    Lambda {
        bindings: Seq<Form>,
        to_eval: Box<Form>,
        env: usize,
        is_macro: bool,
        meta: Seq<(Seq<char>, Form)>,
    },
}

/// The forms of a sequence of values, one for one.
pub open spec fn forms(items: Seq<LispyType>) -> Seq<Form>
    decreases items,
{
    Seq::new(
        items.len(),
        |i: int|
            if 0 <= i < items.len() {
                items[i].form()
            } else {
                arbitrary()
            },
    )
}

/// The forms of a sequence of key and value pairs, one for one.
pub open spec fn pair_forms(items: Seq<(LispyType, LispyType)>) -> Seq<(Form, Form)>
    decreases items,
{
    Seq::new(
        items.len(),
        |i: int|
            if 0 <= i < items.len() {
                (items[i].0.form(), items[i].1.form())
            } else {
                arbitrary()
            },
    )
}

/// The model of a metadata table.
pub open spec fn meta_forms(items: Seq<(String, LispyType)>) -> Seq<(Seq<char>, Form)>
    decreases items,
{
    Seq::new(
        items.len(),
        |i: int|
            if 0 <= i < items.len() {
                (items[i].0@, items[i].1.form())
            } else {
                arbitrary()
            },
    )
}

pub broadcast proof fn lemma_forms_len(items: Seq<LispyType>)
    ensures
        #[trigger] forms(items).len() == items.len(),
{
}

pub broadcast proof fn lemma_forms_index(items: Seq<LispyType>, i: int)
    requires
        0 <= i < items.len(),
    ensures
        #[trigger] forms(items)[i] == items[i]@,
{
}

pub broadcast proof fn lemma_pair_forms_len(items: Seq<(LispyType, LispyType)>)
    ensures
        #[trigger] pair_forms(items).len() == items.len(),
{
}

pub broadcast proof fn lemma_pair_forms_index(items: Seq<(LispyType, LispyType)>, i: int)
    requires
        0 <= i < items.len(),
    ensures
        #[trigger] pair_forms(items)[i] == (items[i].0@, items[i].1@),
{
}

pub broadcast proof fn lemma_meta_forms_len(items: Seq<(String, LispyType)>)
    ensures
        #[trigger] meta_forms(items).len() == items.len(),
{
}

pub broadcast proof fn lemma_meta_forms_index(items: Seq<(String, LispyType)>, i: int)
    requires
        0 <= i < items.len(),
    ensures
        #[trigger] meta_forms(items)[i] == (items[i].0@, items[i].1@),
{
}

/// How the forms of a sequence follow its length and its items.
pub broadcast group group_forms {
    lemma_forms_len,
    lemma_forms_index,
    lemma_pair_forms_len,
    lemma_pair_forms_index,
    lemma_meta_forms_len,
    lemma_meta_forms_index,
}

impl LispyType {
    /// The form this value stands for.
    pub open spec fn form(&self) -> Form
        decreases self,
    {
        match self {
            LispyType::Nil { meta } => Form::Nil { meta: meta_forms(meta@) },
            LispyType::Bool { value, meta } => Form::Bool { value: *value, meta: meta_forms(meta@) },
            LispyType::Number { value, meta } => Form::Number {
                value: *value,
                meta: meta_forms(meta@),
            },
            LispyType::Symbol { value, meta } => Form::Symbol {
                value: value@,
                meta: meta_forms(meta@),
            },
            LispyType::Keyword { value, meta } => Form::Keyword {
                value: value@,
                meta: meta_forms(meta@),
            },
            LispyType::String { value, meta } => Form::String {
                value: value@,
                meta: meta_forms(meta@),
            },
            LispyType::List { collection, meta } => Form::List {
                collection: forms(collection@),
                meta: meta_forms(meta@),
            },
            LispyType::Hash { collection, meta } => Form::Hash {
                collection: pair_forms(collection@),
                meta: meta_forms(meta@),
            },
            LispyType::Error { error_type, message, meta } => Form::Error {
                error_type: error_type@,
                message: message@,
                meta: meta_forms(meta@),
            },
            LispyType::Function { arity, func, meta } => Form::Function {
                arity: *arity,
                func: *func,
                meta: meta_forms(meta@),
            },
            LispyType::Lambda { bindings, to_eval, env, is_macro, meta } => Form::Lambda {
                bindings: forms(bindings@),
                to_eval: Box::new((**to_eval).form()),
                env: *env,
                is_macro: *is_macro,
                meta: meta_forms(meta@),
            },
        }
    }
}

impl View for LispyType {
    type V = Form;

    open spec fn view(&self) -> Form {
        self.form()
    }
}

/// Copies a sequence of values.
pub fn clone_items(items: &Vec<LispyType>) -> (copy: Vec<LispyType>)
    ensures
        forms(copy@) == forms(items@),
    decreases items, 0int,
{
    let mut copy: Vec<LispyType> = Vec::new();
    let mut i: usize = 0;
    while i < items.len()
        invariant
            i <= items.len(),
            copy.len() == i,
            forall|j: int| 0 <= j < i ==> copy[j]@ == items[j]@,
        decreases items.len() - i,
    {
        let item = items[i].clone();
        copy.push(item);
        i += 1;
    }
    assert(forms(copy@) =~= forms(items@));
    copy
}

/// Appends copies of the items from `from` up to `to`.
pub fn extend_cloned(out: &mut Vec<LispyType>, items: &Vec<LispyType>, from: usize, to: usize)
    requires
        from <= to <= items.len(),
    ensures
        forms(final(out)@) == forms(old(out)@) + forms(items@).subrange(from as int, to as int),
{
    broadcast use group_forms;

    let ghost before = forms(out@);
    let mut i: usize = from;
    assert(forms(out@) =~= before + forms(items@).subrange(from as int, from as int));
    while i < to
        invariant
            from <= i <= to,
            to <= items.len(),
            forms(out@) == before + forms(items@).subrange(from as int, i as int),
        decreases to - i,
    {
        let ghost so_far = forms(out@);
        let item = items[i].clone();
        out.push(item);
        assert(forms(out@) =~= so_far.push(items[i as int]@));
        assert(forms(out@) =~= before + forms(items@).subrange(from as int, i as int + 1));
        i += 1;
    }
}

/// Copies the items from `from` on.
pub fn tail_cloned(items: &Vec<LispyType>, from: usize) -> (tail: Vec<LispyType>)
    requires
        from <= items.len(),
    ensures
        forms(tail@) == forms(items@).subrange(from as int, items@.len() as int),
{
    broadcast use group_forms;

    let mut tail: Vec<LispyType> = Vec::new();
    assert(forms(tail@) =~= Seq::<Form>::empty());
    extend_cloned(&mut tail, items, from, items.len());
    assert(forms(tail@) =~= forms(items@).subrange(from as int, items@.len() as int));
    tail
}

/// Copies a sequence of key and value pairs.
pub fn clone_pairs(items: &Vec<(LispyType, LispyType)>) -> (copy: Vec<(LispyType, LispyType)>)
    ensures
        pair_forms(copy@) == pair_forms(items@),
    decreases items, 0int,
{
    let mut copy: Vec<(LispyType, LispyType)> = Vec::new();
    let mut i: usize = 0;
    while i < items.len()
        invariant
            i <= items.len(),
            copy.len() == i,
            forall|j: int|
                0 <= j < i ==> copy[j].0@ == items[j].0@ && copy[j].1@ == items[j].1@,
        decreases items.len() - i,
    {
        let key = items[i].0.clone();
        let value = items[i].1.clone();
        copy.push((key, value));
        i += 1;
    }
    assert(pair_forms(copy@) =~= pair_forms(items@));
    copy
}

/// Copies a metadata table.
pub fn clone_meta(items: &TypeMeta) -> (copy: TypeMeta)
    ensures
        meta_forms(copy@) == meta_forms(items@),
    decreases items, 0int,
{
    let mut copy: TypeMeta = Vec::new();
    let mut i: usize = 0;
    while i < items.len()
        invariant
            i <= items.len(),
            copy.len() == i,
            forall|j: int|
                0 <= j < i ==> copy[j].0@ == items[j].0@ && copy[j].1@ == items[j].1@,
        decreases items.len() - i,
    {
        let key = items[i].0.clone();
        let value = items[i].1.clone();
        copy.push((key, value));
        i += 1;
    }
    assert(meta_forms(copy@) =~= meta_forms(items@));
    copy
}

impl Clone for LispyType {
    /// A deep copy: the copy stands for the same form, metadata included.
    fn clone(&self) -> (copy: Self)
        ensures
            copy@ == self@,
        decreases self, 1int,
    {
        match self {
            LispyType::Nil { meta } => LispyType::Nil { meta: clone_meta(meta) },
            LispyType::Bool { value, meta } => LispyType::Bool {
                value: *value,
                meta: clone_meta(meta),
            },
            LispyType::Number { value, meta } => LispyType::Number {
                value: *value,
                meta: clone_meta(meta),
            },
            LispyType::Symbol { value, meta } => LispyType::Symbol {
                value: value.clone(),
                meta: clone_meta(meta),
            },
            LispyType::Keyword { value, meta } => LispyType::Keyword {
                value: value.clone(),
                meta: clone_meta(meta),
            },
            LispyType::String { value, meta } => LispyType::String {
                value: value.clone(),
                meta: clone_meta(meta),
            },
            LispyType::List { collection, meta } => LispyType::List {
                collection: clone_items(collection),
                meta: clone_meta(meta),
            },
            LispyType::Hash { collection, meta } => LispyType::Hash {
                collection: clone_pairs(collection),
                meta: clone_meta(meta),
            },
            LispyType::Error { error_type, message, meta } => LispyType::Error {
                error_type: error_type.clone(),
                message: message.clone(),
                meta: clone_meta(meta),
            },
            LispyType::Function { arity, func, meta } => LispyType::Function {
                arity: *arity,
                func: *func,
                meta: clone_meta(meta),
            },
            LispyType::Lambda { bindings, to_eval, env, is_macro, meta } => LispyType::Lambda {
                bindings: clone_items(bindings),
                to_eval: Box::new((**to_eval).clone()),
                env: *env,
                is_macro: *is_macro,
                meta: clone_meta(meta),
            },
        }
    }
}


/// The kind and the message of an `Error` value.
pub struct LispyErrorInternal {
    pub message: String,
    pub error_type: String,
}

/// The empty metadata table.
pub open spec fn no_meta() -> Seq<(Seq<char>, Form)> {
    Seq::empty()
}

/// `nil`.
pub open spec fn nil_form() -> Form {
    Form::Nil { meta: no_meta() }
}

/// A boolean.
pub open spec fn bool_form(value: bool) -> Form {
    Form::Bool { value, meta: no_meta() }
}

/// The number with this bit pattern.
pub open spec fn number_form(bits: u64) -> Form {
    Form::Number { value: bits, meta: no_meta() }
}

/// The symbol of this name.
pub open spec fn symbol_form(name: Seq<char>) -> Form {
    Form::Symbol { value: name, meta: no_meta() }
}

/// The keyword of this name, colon included.
pub open spec fn keyword_form(name: Seq<char>) -> Form {
    Form::Keyword { value: name, meta: no_meta() }
}

/// The string of this text.
pub open spec fn string_form(text: Seq<char>) -> Form {
    Form::String { value: text, meta: no_meta() }
}

/// The list of these items.
pub open spec fn list_form(items: Seq<Form>) -> Form {
    Form::List { collection: items, meta: no_meta() }
}

/// The hash of these entries.
pub open spec fn hash_form(entries: Seq<(Form, Form)>) -> Form {
    Form::Hash { collection: entries, meta: no_meta() }
}

/// The error of this kind, with this message.
pub open spec fn error_form(kind: Seq<char>, message: Seq<char>) -> Form {
    Form::Error { error_type: kind, message, meta: no_meta() }
}

/// The native `func`, with its arity where it has a fixed one.
pub open spec fn function_form(arity: Option<i32>, func: Builtin) -> Form {
    Form::Function { arity, func, meta: no_meta() }
}

/// The lambda of these parameters and this body, closing over the frame `env`.
pub open spec fn lambda_form(bindings: Seq<Form>, body: Form, env: usize, is_macro: bool) -> Form {
    Form::Lambda { bindings, to_eval: Box::new(body), env, is_macro, meta: no_meta() }
}

/// Only `Nil` and `false` are falsy.
pub open spec fn truthy(form: Form) -> bool {
    match form {
        Form::Nil { .. } => false,
        Form::Bool { value, .. } => value,
        _ => true,
    }
}

/// The variants that may key a hash.
pub open spec fn hashable(form: Form) -> bool {
    form is Nil || form is Bool || form is Number || form is Symbol || form is Keyword
        || form is String
}

/// What `count` measures: the bytes of a string's UTF-8 text, the items of a
/// list, the entries of a hash; nothing else has a length.
pub open spec fn length_of(form: Form) -> Option<nat> {
    match form {
        Form::String { value, .. } => Some(encode_utf8(value).len()),
        Form::List { collection, .. } => Some(collection.len()),
        Form::Hash { collection, .. } => Some(collection.len()),
        _ => None,
    }
}

/// A metadata table with no entry.
pub fn empty_meta() -> (meta: TypeMeta)
    ensures
        meta_forms(meta@) == no_meta(),
        meta@.len() == 0,
{
    let meta: TypeMeta = Vec::new();
    assert(meta_forms(meta@) =~= no_meta());
    meta
}

// is_? impls
impl LispyType {
    pub fn is_nil(&self) -> (r: bool)
        ensures
            r == (self@ is Nil),
    {
        match self {
            LispyType::Nil { .. } => true,
            _ => false,
        }
    }

    pub fn is_bool(&self) -> (r: bool)
        ensures
            r == (self@ is Bool),
    {
        match self {
            LispyType::Bool { .. } => true,
            _ => false,
        }
    }

    pub fn is_number(&self) -> (r: bool)
        ensures
            r == (self@ is Number),
    {
        match self {
            LispyType::Number { .. } => true,
            _ => false,
        }
    }

    pub fn is_symbol(&self) -> (r: bool)
        ensures
            r == (self@ is Symbol),
    {
        match self {
            LispyType::Symbol { .. } => true,
            _ => false,
        }
    }

    pub fn is_keyword(&self) -> (r: bool)
        ensures
            r == (self@ is Keyword),
    {
        match self {
            LispyType::Keyword { .. } => true,
            _ => false,
        }
    }

    pub fn is_string(&self) -> (r: bool)
        ensures
            r == (self@ is String),
    {
        match self {
            LispyType::String { .. } => true,
            _ => false,
        }
    }

    pub fn is_list(&self) -> (r: bool)
        ensures
            r == (self@ is List),
    {
        match self {
            LispyType::List { .. } => true,
            _ => false,
        }
    }

    pub fn is_hash(&self) -> (r: bool)
        ensures
            r == (self@ is Hash),
    {
        match self {
            LispyType::Hash { .. } => true,
            _ => false,
        }
    }

    pub fn is_error(&self) -> (r: bool)
        ensures
            r == (self@ is Error),
    {
        match self {
            LispyType::Error { .. } => true,
            _ => false,
        }
    }

    /// Natives and lambdas alike are functions.
    pub fn is_function(&self) -> (r: bool)
        ensures
            r == (self@ is Function || self@ is Lambda),
    {
        match self {
            LispyType::Function { .. } => true,
            LispyType::Lambda { .. } => true,
            _ => false,
        }
    }

    pub fn is_lambda(&self) -> (r: bool)
        ensures
            r == (self@ is Lambda),
    {
        match self {
            LispyType::Lambda { .. } => true,
            _ => false,
        }
    }

    /// A lambda that `defmacro!` has flagged.
    pub fn is_macro(&self) -> (r: bool)
        ensures
            r == (self@ matches Form::Lambda { is_macro: true, .. }),
    {
        match self {
            LispyType::Lambda { is_macro, .. } => *is_macro,
            _ => false,
        }
    }

    /// A symbol with exactly this text.
    pub fn is_symbol_containing(&self, name: &str) -> (r: bool)
        ensures
            r == (self@ matches Form::Symbol { value, .. } && value == name@),
    {
        match self {
            LispyType::Symbol { value, .. } => {
                let wanted = String::from_str(name);
                *value == wanted
            },
            _ => false,
        }
    }

    /// Whether this value may key a hash.
    pub fn is_hashable(&self) -> (r: bool)
        ensures
            r == hashable(self@),
    {
        match self {
            LispyType::Nil { .. } => true,
            LispyType::Bool { .. } => true,
            LispyType::Number { .. } => true,
            LispyType::Symbol { .. } => true,
            LispyType::Keyword { .. } => true,
            LispyType::String { .. } => true,
            _ => false,
        }
    }
}

// as_? impls
impl LispyType {
    pub fn as_bool(&self) -> (r: Option<&bool>)
        ensures
            match r {
                Some(value) => self@ matches Form::Bool { value: v, .. } && v == *value,
                None => !(self@ is Bool),
            },
    {
        match self {
            LispyType::Bool { value, .. } => Some(value),
            _ => None,
        }
    }

    /// The bit pattern of a number.
    pub fn as_number(&self) -> (r: Option<&u64>)
        ensures
            match r {
                Some(value) => self@ matches Form::Number { value: v, .. } && v == *value,
                None => !(self@ is Number),
            },
    {
        match self {
            LispyType::Number { value, .. } => Some(value),
            _ => None,
        }
    }

    pub fn as_symbol(&self) -> (r: Option<&String>)
        ensures
            match r {
                Some(value) => self@ matches Form::Symbol { value: v, .. } && v == value@,
                None => !(self@ is Symbol),
            },
    {
        match self {
            LispyType::Symbol { value, .. } => Some(value),
            _ => None,
        }
    }

    pub fn as_keyword(&self) -> (r: Option<&String>)
        ensures
            match r {
                Some(value) => self@ matches Form::Keyword { value: v, .. } && v == value@,
                None => !(self@ is Keyword),
            },
    {
        match self {
            LispyType::Keyword { value, .. } => Some(value),
            _ => None,
        }
    }

    pub fn as_string(&self) -> (r: Option<&String>)
        ensures
            match r {
                Some(value) => self@ matches Form::String { value: v, .. } && v == value@,
                None => !(self@ is String),
            },
    {
        match self {
            LispyType::String { value, .. } => Some(value),
            _ => None,
        }
    }

    pub fn as_list(&self) -> (r: Option<&Vec<LispyType>>)
        ensures
            match r {
                Some(items) => self@ matches Form::List { collection, .. } && collection == forms(
                    items@,
                ),
                None => !(self@ is List),
            },
    {
        match self {
            LispyType::List { collection, .. } => Some(collection),
            _ => None,
        }
    }

    pub fn as_hash(&self) -> (r: Option<&Vec<(LispyType, LispyType)>>)
        ensures
            match r {
                Some(entries) => self@ matches Form::Hash { collection, .. } && collection
                    == pair_forms(entries@),
                None => !(self@ is Hash),
            },
    {
        match self {
            LispyType::Hash { collection, .. } => Some(collection),
            _ => None,
        }
    }

    pub fn as_error(&self) -> (r: Option<LispyErrorInternal>)
        ensures
            match r {
                Some(error) => self@ matches Form::Error { error_type, message, .. }
                    && error_type == error.error_type@ && message == error.message@,
                None => !(self@ is Error),
            },
    {
        match self {
            LispyType::Error { message, error_type, .. } => Some(
                LispyErrorInternal { message: message.clone(), error_type: error_type.clone() },
            ),
            _ => None,
        }
    }
}

// truthiness
impl LispyType {
    pub fn is_truthy(&self) -> (r: bool)
        ensures
            r == truthy(self@),
    {
        match self {
            LispyType::Nil { .. } => false,
            LispyType::Bool { value, .. } => *value,
            _ => true,
        }
    }
}

// Countable
impl LispyType {
    /// The length that `count` reports, where the value has one.
    pub fn len(&self) -> (r: Option<usize>)
        ensures
            match r {
                Some(n) => length_of(self@) == Some(n as nat),
                None => length_of(self@) is None,
            },
    {
        broadcast use group_forms;

        match self {
            LispyType::String { value, .. } => {
                let bytes = value.as_str().as_bytes();
                proof {
                    vstd::slice::axiom_spec_len(bytes);
                }
                let n = bytes.len();
                Some(n)
            },
            LispyType::List { collection, .. } => {
                assert(forms(collection@).len() == collection@.len());
                Some(collection.len())
            },
            LispyType::Hash { collection, .. } => {
                assert(pair_forms(collection@).len() == collection@.len());
                Some(collection.len())
            },
            _ => None,
        }
    }
}

// constructors
impl LispyType {
    pub fn create_function(arity: Option<i32>, func: Builtin) -> (r: Self)
        ensures
            r@ == function_form(arity, func),
    {
        Self::Function { arity, func, meta: empty_meta() }
    }

    pub fn create_bool(value: bool) -> (r: Self)
        ensures
            r@ == bool_form(value),
    {
        Self::Bool { value, meta: empty_meta() }
    }

    /// A number from the bit pattern of a double.
    pub fn create_number(value: u64) -> (r: Self)
        ensures
            r@ == number_form(value),
    {
        Self::Number { value, meta: empty_meta() }
    }

    pub fn create_nil() -> (r: Self)
        ensures
            r@ == nil_form(),
    {
        Self::Nil { meta: empty_meta() }
    }

    pub fn create_error(message: &str, err_type: &str) -> (r: Self)
        ensures
            r@ == error_form(err_type@, message@),
    {
        Self::Error {
            message: String::from_str(message),
            error_type: String::from_str(err_type),
            meta: empty_meta(),
        }
    }

    pub fn create_string(value: &str) -> (r: Self)
        ensures
            r@ == string_form(value@),
    {
        Self::String { value: String::from_str(value), meta: empty_meta() }
    }

    pub fn create_symbol(value: &str) -> (r: Self)
        ensures
            r@ == symbol_form(value@),
    {
        Self::Symbol { value: String::from_str(value), meta: empty_meta() }
    }

    pub fn create_keyword(value: &str) -> (r: Self)
        ensures
            r@ == keyword_form(value@),
    {
        Self::Keyword { value: String::from_str(value), meta: empty_meta() }
    }

    pub fn create_list(collection: Vec<LispyType>) -> (r: Self)
        ensures
            r@ == list_form(forms(collection@)),
    {
        Self::List { collection, meta: empty_meta() }
    }

    pub fn create_hash(collection: Vec<(LispyType, LispyType)>) -> (r: Self)
        ensures
            r@ == hash_form(pair_forms(collection@)),
    {
        Self::Hash { collection, meta: empty_meta() }
    }

    pub fn create_lambda(bindings: Vec<LispyType>, to_eval: LispyType, env: usize) -> (r: Self)
        ensures
            r@ == lambda_form(forms(bindings@), to_eval@, env, false),
    {
        Self::Lambda { bindings, to_eval: Box::new(to_eval), env, is_macro: false, meta: empty_meta() }
    }
}

} // verus!
