//! The syntax trees of update actions and sort key conditions, and their models.
use vstd::prelude::*;
use crate::value::{AttrVal, AttrValSpec};

verus! {

/// One step of an attribute path: a (map) attribute name or a list index.
#[derive(Debug, Hash, PartialEq, Eq)]
pub enum PathElement {
    Attribute(String),
    Index(String),
}

/// The model of [`PathElement`].
pub enum PathElementSpec {
    Attribute(Seq<char>),
    Index(Seq<char>),
}

impl View for PathElement {
    type V = PathElementSpec;

    open spec fn view(&self) -> PathElementSpec {
        match self {
            PathElement::Attribute(s) => PathElementSpec::Attribute(s@),
            PathElement::Index(s) => PathElementSpec::Index(s@),
        }
    }
}

/// A path to an attribute, such as `a.b[1].c`.
#[derive(Debug, Hash, PartialEq, Eq)]
pub struct Path {
    pub elements: Vec<PathElement>,
}

pub open spec fn path_view(p: Path) -> Seq<PathElementSpec> {
    p.elements@.map_values(|e: PathElement| e@)
}

impl View for Path {
    type V = Seq<PathElementSpec>;

    open spec fn view(&self) -> Seq<PathElementSpec> {
        path_view(*self)
    }
}

impl Path {
    /// An empty path.
    pub fn new() -> (p: Path)
        ensures
            p@ == Seq::<PathElementSpec>::empty(),
    {
        Path { elements: Vec::new() }
    }

    /// Appends an attribute name.
    pub fn add_attr(&mut self, attr: String)
        ensures
            final(self)@ == old(self)@.push(PathElementSpec::Attribute(attr@)),
    {
        self.elements.push(PathElement::Attribute(attr));
        assert(self@ =~= old(self)@.push(PathElementSpec::Attribute(attr@)));
    }

    /// Appends a list index.
    pub fn add_index(&mut self, idx: String)
        ensures
            final(self)@ == old(self)@.push(PathElementSpec::Index(idx@)),
    {
        self.elements.push(PathElement::Index(idx));
        assert(self@ =~= old(self)@.push(PathElementSpec::Index(idx@)));
    }
}

/// The right hand side of a set action.
#[derive(Debug, PartialEq, Eq)]
pub enum Value {
    PlusExpression(Operand, Operand),
    MinusExpression(Operand, Operand),
    Operand(Operand),
}

/// An operand of a value.
#[derive(Debug, PartialEq, Eq)]
pub enum Operand {
    Function(Function),
    Literal(AttrVal),
    Path(Path),
}

/// A function call of an update expression.
#[derive(Debug, PartialEq, Eq)]
pub enum Function {
    ListAppendFunction(ListAppendParameter, ListAppendParameter),
    IfNotExistsFunction(Path, Box<Value>),
}

/// An argument of `list_append`.
#[derive(Debug, PartialEq, Eq)]
pub enum ListAppendParameter {
    Path(Path),
    ListLiteral(AttrVal),
}

/// One `path = value` of a set action.
#[derive(Debug, PartialEq, Eq)]
pub struct AtomicSet {
    pub path: Path,
    pub value: Value,
}

/// One path of a remove action.
#[derive(Debug, PartialEq, Eq)]
pub struct AtomicRemove {
    pub path: Path,
}

/// A condition on the sort key of a query.
#[derive(Debug, PartialEq, Eq)]
pub enum SortKeyCondition {
    Eq(AttrVal),
    Le(AttrVal),
    Lt(AttrVal),
    Ge(AttrVal),
    Gt(AttrVal),
    Between(AttrVal, AttrVal),
    BeginsWith(AttrVal),
}

pub enum ValueSpec {
    Plus(OperandSpec, OperandSpec),
    Minus(OperandSpec, OperandSpec),
    Operand(OperandSpec),
}

pub enum OperandSpec {
    Function(FunctionSpec),
    Literal(AttrValSpec),
    Path(Seq<PathElementSpec>),
}

pub enum FunctionSpec {
    ListAppend(ListParamSpec, ListParamSpec),
    IfNotExists(Seq<PathElementSpec>, Box<ValueSpec>),
}

pub enum ListParamSpec {
    Path(Seq<PathElementSpec>),
    List(AttrValSpec),
}

pub enum SortKeyConditionSpec {
    Eq(AttrValSpec),
    Le(AttrValSpec),
    Lt(AttrValSpec),
    Ge(AttrValSpec),
    Gt(AttrValSpec),
    Between(AttrValSpec, AttrValSpec),
    BeginsWith(AttrValSpec),
}

pub open spec fn list_param_view(p: ListAppendParameter) -> ListParamSpec {
    match p {
        ListAppendParameter::Path(p) => ListParamSpec::Path(p@),
        ListAppendParameter::ListLiteral(l) => ListParamSpec::List(l@),
    }
}

pub open spec fn value_view(v: Value) -> ValueSpec
    decreases v, 2int,
{
    match v {
        Value::PlusExpression(a, b) => ValueSpec::Plus(operand_view(a), operand_view(b)),
        Value::MinusExpression(a, b) => ValueSpec::Minus(operand_view(a), operand_view(b)),
        Value::Operand(a) => ValueSpec::Operand(operand_view(a)),
    }
}

pub open spec fn operand_view(o: Operand) -> OperandSpec
    decreases o, 1int,
{
    match o {
        Operand::Function(f) => OperandSpec::Function(function_view(f)),
        Operand::Literal(l) => OperandSpec::Literal(l@),
        Operand::Path(p) => OperandSpec::Path(p@),
    }
}

pub open spec fn function_view(f: Function) -> FunctionSpec
    decreases f, 0int,
{
    match f {
        Function::ListAppendFunction(a, b) => FunctionSpec::ListAppend(
            list_param_view(a),
            list_param_view(b),
        ),
        Function::IfNotExistsFunction(p, v) => FunctionSpec::IfNotExists(
            p@,
            Box::new(value_view(*v)),
        ),
    }
}

impl View for Value {
    type V = ValueSpec;

    open spec fn view(&self) -> ValueSpec {
        value_view(*self)
    }
}

impl View for Operand {
    type V = OperandSpec;

    open spec fn view(&self) -> OperandSpec {
        operand_view(*self)
    }
}

impl View for Function {
    type V = FunctionSpec;

    open spec fn view(&self) -> FunctionSpec {
        function_view(*self)
    }
}

impl View for ListAppendParameter {
    type V = ListParamSpec;

    open spec fn view(&self) -> ListParamSpec {
        list_param_view(*self)
    }
}

impl View for AtomicSet {
    type V = (Seq<PathElementSpec>, ValueSpec);

    open spec fn view(&self) -> (Seq<PathElementSpec>, ValueSpec) {
        (self.path@, self.value@)
    }
}

impl View for AtomicRemove {
    type V = Seq<PathElementSpec>;

    open spec fn view(&self) -> Seq<PathElementSpec> {
        self.path@
    }
}

impl View for SortKeyCondition {
    type V = SortKeyConditionSpec;

    open spec fn view(&self) -> SortKeyConditionSpec {
        match self {
            SortKeyCondition::Eq(v) => SortKeyConditionSpec::Eq(v@),
            SortKeyCondition::Le(v) => SortKeyConditionSpec::Le(v@),
            SortKeyCondition::Lt(v) => SortKeyConditionSpec::Lt(v@),
            SortKeyCondition::Ge(v) => SortKeyConditionSpec::Ge(v@),
            SortKeyCondition::Gt(v) => SortKeyConditionSpec::Gt(v@),
            SortKeyCondition::Between(a, b) => SortKeyConditionSpec::Between(a@, b@),
            SortKeyCondition::BeginsWith(v) => SortKeyConditionSpec::BeginsWith(v@),
        }
    }
}

} // verus!
