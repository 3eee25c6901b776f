//! A parsed configuration file, as plain values: blocks, attributes and
//! expressions, in the order in which the file declares them.
use vstd::prelude::*;

verus! {

/// The key of one entry of an object expression.
#[derive(Debug)]
pub enum ObjectKey {
    /// A bare identifier, as in `{ source = ... }`.
    Identifier(String),
    /// Any other key expression, given by its text.
    Expression(String),
}

pub enum KeyView {
    Identifier(Seq<char>),
    Expression(Seq<char>),
}

impl View for ObjectKey {
    type V = KeyView;

    open spec fn view(&self) -> KeyView {
        match self {
            ObjectKey::Identifier(s) => KeyView::Identifier(s@),
            ObjectKey::Expression(s) => KeyView::Expression(s@),
        }
    }
}

/// One entry of an object expression: its key and the text of its value.
#[derive(Debug)]
pub struct ObjectField {
    pub key: ObjectKey,
    pub value: String,
}

pub struct FieldView {
    pub key: KeyView,
    pub value: Seq<char>,
}

impl View for ObjectField {
    type V = FieldView;

    open spec fn view(&self) -> FieldView {
        FieldView { key: self.key@, value: self.value@ }
    }
}

pub open spec fn field_views(v: Seq<ObjectField>) -> Seq<FieldView> {
    v.map_values(|f: ObjectField| f@)
}

/// An expression: its text as the configuration language writes it, and its
/// entries when it is an object literal.
#[derive(Debug)]
pub struct Expression {
    pub text: String,
    pub object: Option<Vec<ObjectField>>,
}

pub struct ExprView {
    pub text: Seq<char>,
    pub object: Option<Seq<FieldView>>,
}

impl View for Expression {
    type V = ExprView;

    open spec fn view(&self) -> ExprView {
        ExprView {
            text: self.text@,
            object: match &self.object {
                Some(v) => Some(field_views(v@)),
                None => None,
            },
        }
    }
}

/// `key = expr`.
#[derive(Debug)]
pub struct Attribute {
    pub key: String,
    pub expr: Expression,
}

/// `identifier { body }`.
#[derive(Debug)]
pub struct Block {
    pub identifier: String,
    pub body: Body,
}

/// The attributes and the nested blocks of a file or of a block, each in
/// declaration order.
#[derive(Debug)]
pub struct Body {
    pub attributes: Vec<Attribute>,
    pub blocks: Vec<Block>,
}

impl ObjectKey {
    pub fn copy(&self) -> (r: ObjectKey)
        ensures
            r@ == self@,
    {
        match self {
            ObjectKey::Identifier(s) => ObjectKey::Identifier(s.clone()),
            ObjectKey::Expression(s) => ObjectKey::Expression(s.clone()),
        }
    }
}

impl ObjectField {
    pub fn new(key: ObjectKey, value: String) -> (r: ObjectField)
        ensures
            r.key == key,
            r.value == value,
    {
        ObjectField { key, value }
    }

    pub fn copy(&self) -> (r: ObjectField)
        ensures
            r@ == self@,
    {
        ObjectField { key: self.key.copy(), value: self.value.clone() }
    }
}

impl Expression {
    /// An expression that is not an object literal.
    pub fn other(text: String) -> (r: Expression)
        ensures
            r.text == text,
            r.object is None,
    {
        Expression { text, object: None }
    }

    /// An object literal with the given entries.
    pub fn object(text: String, fields: Vec<ObjectField>) -> (r: Expression)
        ensures
            r.text == text,
            r.object == Some(fields),
    {
        Expression { text, object: Some(fields) }
    }

    pub fn copy(&self) -> (r: Expression)
        ensures
            r@ == self@,
    {
        match &self.object {
            None => Expression { text: self.text.clone(), object: None },
            Some(fields) => {
                let mut out: Vec<ObjectField> = Vec::new();
                let mut i: usize = 0;
                while i < fields.len()
                    invariant
                        i <= fields.len(),
                        out@.len() == i,
                        forall|j: int| 0 <= j < i ==> #[trigger] out@[j]@ == fields@[j]@,
                    decreases fields.len() - i,
                {
                    out.push(fields[i].copy());
                    i += 1;
                }
                assert(field_views(out@) =~= field_views(fields@));
                Expression { text: self.text.clone(), object: Some(out) }
            },
        }
    }
}

impl Attribute {
    pub fn new(key: String, expr: Expression) -> (r: Attribute)
        ensures
            r.key == key,
            r.expr == expr,
    {
        Attribute { key, expr }
    }
}

impl Block {
    pub fn new(identifier: String, body: Body) -> (r: Block)
        ensures
            r.identifier == identifier,
            r.body == body,
    {
        Block { identifier, body }
    }
}

impl Body {
    pub fn new(attributes: Vec<Attribute>, blocks: Vec<Block>) -> (r: Body)
        ensures
            r.attributes == attributes,
            r.blocks == blocks,
    {
        Body { attributes, blocks }
    }
}

} // verus!
