//! The semantic expression language of graph definitions.
use vstd::prelude::*;

use crate::text::text;
use crate::planner::gather;

verus! {

#[derive(Debug, Clone, PartialEq, Eq)]
pub enum LiteralValue {
    Null,
    Boolean(bool),
    Integer(i64),
    Decimal(String),
    String(String),
}

#[derive(Debug, Clone, Copy, PartialEq, Eq, Structural)]
pub enum SemanticFunction {
    Lower,
    Upper,
    Coalesce,
    Concat,
}

pub open spec fn semantic_function_name(f: SemanticFunction) -> Seq<char> {
    match f {
        SemanticFunction::Lower => "lower"@,
        SemanticFunction::Upper => "upper"@,
        SemanticFunction::Coalesce => "coalesce"@,
        SemanticFunction::Concat => "concat"@,
    }
}

impl SemanticFunction {
    pub fn as_str(self) -> (r: &'static str)
        ensures
            r@ == semantic_function_name(self),
    {
        match self {
            SemanticFunction::Lower => "lower",
            SemanticFunction::Upper => "upper",
            SemanticFunction::Coalesce => "coalesce",
            SemanticFunction::Concat => "concat",
        }
    }
}

#[derive(Debug, Clone, Copy, PartialEq, Eq, Structural)]
pub enum AggregateFunction {
    Count,
    CountDistinct,
    Sum,
    Average,
    Minimum,
    Maximum,
}

pub open spec fn aggregate_function_name(f: AggregateFunction) -> Seq<char> {
    match f {
        AggregateFunction::Count => "count"@,
        AggregateFunction::CountDistinct => "countDistinct"@,
        AggregateFunction::Sum => "sum"@,
        AggregateFunction::Average => "average"@,
        AggregateFunction::Minimum => "minimum"@,
        AggregateFunction::Maximum => "maximum"@,
    }
}

impl AggregateFunction {
    pub fn as_str(self) -> (r: &'static str)
        ensures
            r@ == aggregate_function_name(self),
    {
        match self {
            AggregateFunction::Count => "count",
            AggregateFunction::CountDistinct => "countDistinct",
            AggregateFunction::Sum => "sum",
            AggregateFunction::Average => "average",
            AggregateFunction::Minimum => "minimum",
            AggregateFunction::Maximum => "maximum",
        }
    }
}

#[derive(Debug, PartialEq, Eq)]
#[allow(inconsistent_fields)]
pub enum Expression {
    Field { source: String, field: String },
    Parameter { name: String },
    Literal { value: LiteralValue },
    Eq { left: Box<Expression>, right: Box<Expression> },
    NotEq { left: Box<Expression>, right: Box<Expression> },
    LessThan { left: Box<Expression>, right: Box<Expression> },
    LessThanOrEqual { left: Box<Expression>, right: Box<Expression> },
    GreaterThan { left: Box<Expression>, right: Box<Expression> },
    GreaterThanOrEqual { left: Box<Expression>, right: Box<Expression> },
    Like { expression: Box<Expression>, pattern: Box<Expression> },
    In { expression: Box<Expression>, values: Vec<Expression> },
    InParameter { expression: Box<Expression>, parameter: String },
    And { expressions: Vec<Expression> },
    Or { expressions: Vec<Expression> },
    Not { expression: Box<Expression> },
    IsNull { expression: Box<Expression> },
    IsNotNull { expression: Box<Expression> },
    Exists { source: String, from: Option<String>, predicate: Option<Box<Expression>> },
    Function { name: SemanticFunction, arguments: Vec<Expression> },
    Aggregate { function: AggregateFunction, expression: Option<Box<Expression>> },
}

/// The source and field of a field node.
pub open spec fn node_field(n: Expression) -> Seq<(Seq<char>, Seq<char>)> {
    match n {
        Expression::Field { source, field } => seq![(source@, field@)],
        _ => seq![],
    }
}

/// The fields an expression reads, with their sources, in walk order.
pub open spec fn field_references(e: Expression) -> Seq<(Seq<char>, Seq<char>)> {
    gather(walk(e, false), |n: Expression| node_field(n), walk(e, false).len() as int)
}

pub open spec fn field_pairs(v: Seq<(&String, &String)>) -> Seq<(Seq<char>, Seq<char>)> {
    Seq::new(v.len(), |k: int| (v[k].0@, v[k].1@))
}

/// The direct sub-expressions of `e`, in the order a traversal visits them.
pub open spec fn children(e: Expression) -> Seq<Expression> {
    match e {
        Expression::Field { .. } => seq![],
        Expression::Parameter { .. } => seq![],
        Expression::Literal { .. } => seq![],
        Expression::Eq { left, right } => seq![*left, *right],
        Expression::NotEq { left, right } => seq![*left, *right],
        Expression::LessThan { left, right } => seq![*left, *right],
        Expression::LessThanOrEqual { left, right } => seq![*left, *right],
        Expression::GreaterThan { left, right } => seq![*left, *right],
        Expression::GreaterThanOrEqual { left, right } => seq![*left, *right],
        Expression::Like { expression, pattern } => seq![*expression, *pattern],
        Expression::In { expression, values } => seq![*expression] + values@,
        Expression::InParameter { expression, .. } => seq![*expression],
        Expression::And { expressions } => expressions@,
        Expression::Or { expressions } => expressions@,
        Expression::Not { expression } => seq![*expression],
        Expression::IsNull { expression } => seq![*expression],
        Expression::IsNotNull { expression } => seq![*expression],
        Expression::Exists { predicate, .. } => match predicate {
            Some(p) => seq![*p],
            None => seq![],
        },
        Expression::Function { arguments, .. } => arguments@,
        Expression::Aggregate { expression, .. } => match expression {
            Some(x) => seq![*x],
            None => seq![],
        },
    }
}

/// Every child of an expression is structurally smaller than it.
pub proof fn lemma_children_decrease(e: Expression)
    ensures
        forall|i: int|
            0 <= i < children(e).len() ==> decreases_to!(e => #[trigger] children(e)[i]),
{
    assert forall|i: int| 0 <= i < children(e).len() implies decreases_to!(e => #[trigger] children(e)[i]) by {
        match e {
            Expression::In { expression, values } => {
                if i > 0 {
                    assert(children(e)[i] == values@[i - 1]);
                    assert(decreases_to!(values => values@));
                    assert(decreases_to!(values@ => values@[i - 1]));
                }
            },
            Expression::And { expressions } => {
                assert(decreases_to!(expressions => expressions@));
            },
            Expression::Or { expressions } => {
                assert(decreases_to!(expressions => expressions@));
            },
            Expression::Function { arguments, .. } => {
                assert(decreases_to!(arguments => arguments@));
            },
            _ => {},
        }
    }
}

/// The nodes of `e` in pre-order. When `stop_at_exists` holds, the predicate of an
/// `Exists` node is not entered.
pub open spec fn walk(e: Expression, stop_at_exists: bool) -> Seq<Expression>
    decreases e, children(e).len() + 1,
{
    if stop_at_exists && e is Exists {
        seq![e]
    } else {
        seq![e] + walk_children(e, stop_at_exists, children(e).len())
    }
}

/// The walks of the first `n` children of `parent`, concatenated.
pub open spec fn walk_children(parent: Expression, stop_at_exists: bool, n: nat) -> Seq<
    Expression,
>
    decreases parent, n,
{
    if n == 0 || n > children(parent).len() {
        seq![]
    } else {
        proof {
            lemma_children_decrease(parent);
            assert(decreases_to!(parent => children(parent)[n - 1]));
        }
        walk_children(parent, stop_at_exists, (n - 1) as nat) + walk(
            children(parent)[n - 1],
            stop_at_exists,
        )
    }
}

/// Whether an aggregate occurs anywhere in the expression.
pub open spec fn spec_contains_aggregate(e: Expression) -> bool {
    exists|i: int| 0 <= i < walk(e, false).len() && (#[trigger] walk(e, false)[i]) is Aggregate
}

impl Expression {
    pub fn field(source: &str, field: &str) -> (r: Self)
        ensures
            r matches Expression::Field { source: s, field: f } && s@ == source@ && f@ == field@,
    {
        Expression::Field { source: text(source), field: text(field) }
    }

    pub fn parameter(name: &str) -> (r: Self)
        ensures
            r matches Expression::Parameter { name: n } && n@ == name@,
    {
        Expression::Parameter { name: text(name) }
    }

    pub fn literal(value: LiteralValue) -> (r: Self)
        ensures
            r == (Expression::Literal { value }),
    {
        Expression::Literal { value }
    }

    pub fn eq(left: Expression, right: Expression) -> (r: Self)
        ensures
            r == (Expression::Eq { left: Box::new(left), right: Box::new(right) }),
    {
        Expression::Eq { left: Box::new(left), right: Box::new(right) }
    }

    pub fn and(expressions: Vec<Expression>) -> (r: Self)
        ensures
            r == (Expression::And { expressions }),
    {
        Expression::And { expressions }
    }

    pub fn or(expressions: Vec<Expression>) -> (r: Self)
        ensures
            r == (Expression::Or { expressions }),
    {
        Expression::Or { expressions }
    }

    pub fn exists_source(source: &str) -> (r: Self)
        ensures
            r matches Expression::Exists { source: s, from: None, predicate: None } && s@
                == source@,
    {
        Expression::Exists { source: text(source), from: None, predicate: None }
    }

    pub fn in_parameter(expression: Expression, parameter: &str) -> (r: Self)
        ensures
            r matches Expression::InParameter { expression: x, parameter: p } && *x == expression
                && p@ == parameter@,
    {
        Expression::InParameter { expression: Box::new(expression), parameter: text(parameter) }
    }

    pub fn exists_where(source: &str, predicate: Expression) -> (r: Self)
        ensures
            r matches Expression::Exists { source: s, from: None, predicate: Some(p) } && s@
                == source@ && *p == predicate,
    {
        Expression::Exists {
            source: text(source),
            from: None,
            predicate: Some(Box::new(predicate)),
        }
    }

    pub fn exists_from(source: &str, from: &str) -> (r: Self)
        ensures
            r matches Expression::Exists { source: s, from: Some(f), predicate: None } && s@
                == source@ && f@ == from@,
    {
        Expression::Exists { source: text(source), from: Some(text(from)), predicate: None }
    }

    pub fn exists_from_where(source: &str, from: &str, predicate: Expression) -> (r: Self)
        ensures
            r matches Expression::Exists { source: s, from: Some(f), predicate: Some(p) } && s@
                == source@ && f@ == from@ && *p == predicate,
    {
        Expression::Exists {
            source: text(source),
            from: Some(text(from)),
            predicate: Some(Box::new(predicate)),
        }
    }

    pub fn aggregate(function: AggregateFunction, expression: Option<Expression>) -> (r: Self)
        ensures
            r matches Expression::Aggregate { function: f, expression: x } && f == function && (
            match expression {
                Some(e) => x == Some(Box::new(e)),
                None => x is None,
            }),
    {
        let boxed = match expression {
            Some(e) => Some(Box::new(e)),
            None => None,
        };
        Expression::Aggregate { function, expression: boxed }
    }

    pub fn count() -> (r: Self)
        ensures
            r == (Expression::Aggregate { function: AggregateFunction::Count, expression: None }),
    {
        Expression::Aggregate { function: AggregateFunction::Count, expression: None }
    }

    pub fn count_of(expression: Expression) -> (r: Self)
        ensures
            r == (Expression::Aggregate {
                function: AggregateFunction::Count,
                expression: Some(Box::new(expression)),
            }),
    {
        Expression::Aggregate {
            function: AggregateFunction::Count,
            expression: Some(Box::new(expression)),
        }
    }

    pub fn count_distinct(expression: Expression) -> (r: Self)
        ensures
            r == (Expression::Aggregate {
                function: AggregateFunction::CountDistinct,
                expression: Some(Box::new(expression)),
            }),
    {
        Expression::Aggregate {
            function: AggregateFunction::CountDistinct,
            expression: Some(Box::new(expression)),
        }
    }

    pub fn sum(expression: Expression) -> (r: Self)
        ensures
            r == (Expression::Aggregate {
                function: AggregateFunction::Sum,
                expression: Some(Box::new(expression)),
            }),
    {
        Expression::Aggregate {
            function: AggregateFunction::Sum,
            expression: Some(Box::new(expression)),
        }
    }

    pub fn average(expression: Expression) -> (r: Self)
        ensures
            r == (Expression::Aggregate {
                function: AggregateFunction::Average,
                expression: Some(Box::new(expression)),
            }),
    {
        Expression::Aggregate {
            function: AggregateFunction::Average,
            expression: Some(Box::new(expression)),
        }
    }

    pub fn minimum(expression: Expression) -> (r: Self)
        ensures
            r == (Expression::Aggregate {
                function: AggregateFunction::Minimum,
                expression: Some(Box::new(expression)),
            }),
    {
        Expression::Aggregate {
            function: AggregateFunction::Minimum,
            expression: Some(Box::new(expression)),
        }
    }

    pub fn maximum(expression: Expression) -> (r: Self)
        ensures
            r == (Expression::Aggregate {
                function: AggregateFunction::Maximum,
                expression: Some(Box::new(expression)),
            }),
    {
        Expression::Aggregate {
            function: AggregateFunction::Maximum,
            expression: Some(Box::new(expression)),
        }
    }

    /// The direct sub-expressions of this expression, in traversal order.
    pub fn child_nodes(&self) -> (r: Vec<&Expression>)
        ensures
            r@.len() == children(*self).len(),
            forall|i: int| 0 <= i < r@.len() ==> *(#[trigger] r@[i]) == children(*self)[i],
    {
        let mut r: Vec<&Expression> = Vec::new();
        match self {
            Expression::Field { .. } | Expression::Parameter { .. } | Expression::Literal {
                ..
            } => {},
            Expression::Eq { left, right }
            | Expression::NotEq { left, right }
            | Expression::LessThan { left, right }
            | Expression::LessThanOrEqual { left, right }
            | Expression::GreaterThan { left, right }
            | Expression::GreaterThanOrEqual { left, right } => {
                r.push(&**left);
                r.push(&**right);
            },
            Expression::Like { expression, pattern } => {
                r.push(&**expression);
                r.push(&**pattern);
            },
            Expression::In { expression, values } => {
                r.push(&**expression);
                let mut i: usize = 0;
                while i < values.len()
                    invariant
                        i <= values@.len(),
                        r@.len() == 1 + i,
                        *r@[0] == **expression,
                        forall|j: int| 0 <= j < i ==> *(#[trigger] r@[j + 1]) == values@[j],
                    decreases values.len() - i,
                {
                    r.push(&values[i]);
                    i = i + 1;
                }
                assert forall|k: int| 0 <= k < r@.len() implies *(#[trigger] r@[k]) == children(
                    *self,
                )[k] by {
                    if k > 0 {
                        assert(*r@[(k - 1) + 1] == values@[k - 1]);
                    }
                }
            },
            Expression::InParameter { expression, .. }
            | Expression::Not { expression }
            | Expression::IsNull { expression }
            | Expression::IsNotNull { expression } => {
                r.push(&**expression);
            },
            Expression::And { expressions } | Expression::Or { expressions } => {
                let mut i: usize = 0;
                while i < expressions.len()
                    invariant
                        i <= expressions@.len(),
                        r@.len() == i,
                        forall|j: int| 0 <= j < i ==> *(#[trigger] r@[j]) == expressions@[j],
                    decreases expressions.len() - i,
                {
                    r.push(&expressions[i]);
                    i = i + 1;
                }
            },
            Expression::Function { arguments, .. } => {
                let mut i: usize = 0;
                while i < arguments.len()
                    invariant
                        i <= arguments@.len(),
                        r@.len() == i,
                        forall|j: int| 0 <= j < i ==> *(#[trigger] r@[j]) == arguments@[j],
                    decreases arguments.len() - i,
                {
                    r.push(&arguments[i]);
                    i = i + 1;
                }
            },
            Expression::Exists { predicate, .. } => {
                if let Some(p) = predicate {
                    r.push(&**p);
                }
            },
            Expression::Aggregate { expression, .. } => {
                if let Some(x) = expression {
                    r.push(&**x);
                }
            },
        }
        r
    }

    /// Appends the pre-order walk of this expression to `out`.
    pub fn walk_into<'a>(&'a self, stop_at_exists: bool, out: &mut Vec<&'a Expression>)
        ensures
            final(out)@.len() == old(out)@.len() + walk(*self, stop_at_exists).len(),
            forall|i: int| 0 <= i < old(out)@.len() ==> (#[trigger] final(out)@[i]) == old(out)@[i],
            forall|i: int|
                0 <= i < walk(*self, stop_at_exists).len() ==> *(#[trigger] final(out)@[old(
                    out,
                )@.len() + i]) == walk(*self, stop_at_exists)[i],
        decreases *self,
    {
        out.push(self);
        if stop_at_exists && matches!(self, Expression::Exists { .. }) {
            return;
        }
        let kids = self.child_nodes();
        let ghost start = old(out)@.len() + 1;
        let mut i: usize = 0;
        proof {
            lemma_children_decrease(*self);
        }
        while i < kids.len()
            invariant
                kids@.len() == children(*self).len(),
                forall|j: int| 0 <= j < kids@.len() ==> *(#[trigger] kids@[j]) == children(*self)[j],
                forall|j: int|
                    0 <= j < children(*self).len() ==> decreases_to!(*self => #[trigger] children(*self)[j]),
                i <= kids.len(),
                start == old(out)@.len() + 1,
                out@.len() == start + walk_children(*self, stop_at_exists, i as nat).len(),
                *out@[old(out)@.len() as int] == *self,
                forall|j: int| 0 <= j < old(out)@.len() ==> (#[trigger] out@[j]) == old(out)@[j],
                forall|j: int|
                    0 <= j < walk_children(*self, stop_at_exists, i as nat).len() ==> *(
                    #[trigger] out@[start + j]) == walk_children(*self, stop_at_exists, i as nat)[j],
            decreases kids.len() - i,
        {
            let ghost before = out@;
            let child = kids[i];
            assert(decreases_to!(*self => children(*self)[i as int]));
            child.walk_into(stop_at_exists, out);
            proof {
                let prev = walk_children(*self, stop_at_exists, i as nat);
                let w = walk(*child, stop_at_exists);
                assert(walk_children(*self, stop_at_exists, (i + 1) as nat) == prev + w);
                assert forall|j: int|
                    0 <= j < (prev + w).len() implies *(#[trigger] out@[start + j]) == (prev
                    + w)[j] by {
                    if j < prev.len() {
                        assert(out@[start + j] == before[start + j]);
                    } else {
                        assert(*out@[before.len() + (j - prev.len())] == w[j - prev.len()]);
                    }
                }
            }
            i = i + 1;
        }
        proof {
            assert(walk(*self, stop_at_exists) == seq![*self] + walk_children(
                *self,
                stop_at_exists,
                children(*self).len(),
            ));
            let w = walk(*self, stop_at_exists);
            assert forall|j: int| 0 <= j < w.len() implies *(#[trigger] out@[old(out)@.len() + j])
                == w[j] by {
                if j > 0 {
                    assert(out@[start + (j - 1)] == out@[old(out)@.len() + j]);
                }
            }
        }
    }

    /// The pre-order walk of this expression.
    pub fn nodes(&self, stop_at_exists: bool) -> (r: Vec<&Expression>)
        ensures
            r@.len() == walk(*self, stop_at_exists).len(),
            forall|i: int| 0 <= i < r@.len() ==> *(#[trigger] r@[i]) == walk(*self, stop_at_exists)[i],
    {
        let mut r: Vec<&Expression> = Vec::new();
        self.walk_into(stop_at_exists, &mut r);
        proof {
            assert forall|i: int| 0 <= i < r@.len() implies *(#[trigger] r@[i]) == walk(
                *self,
                stop_at_exists,
            )[i] by {
                assert(r@[0 + i] == r@[i]);
            }
        }
        r
    }

    /// The `(source, field)` pair of every field node, in the pre-order walk that descends
    /// into every sub-expression: what a visitor of the fields receives, in order.
    pub fn for_each_field(&self) -> (r: Vec<(&String, &String)>)
        ensures
            field_pairs(r@) == field_references(*self),
    {
        let nodes = self.nodes(false);
        let ghost w = walk(*self, false);
        let mut r: Vec<(&String, &String)> = Vec::new();
        let mut i: usize = 0;
        while i < nodes.len()
            invariant
                w == walk(*self, false),
                nodes@.len() == w.len(),
                forall|j: int| 0 <= j < nodes@.len() ==> *(#[trigger] nodes@[j]) == w[j],
                i <= nodes.len(),
                field_pairs(r@) == gather(w, |n: Expression| node_field(n), i as int),
            decreases nodes.len() - i,
        {
            let ghost prev = r@;
            match nodes[i] {
                Expression::Field { source, field } => r.push((source, field)),
                _ => {},
            }
            assert(field_pairs(r@) =~= field_pairs(prev) + node_field(w[i as int]));
            i = i + 1;
        }
        r
    }

    pub fn contains_aggregate(&self) -> (r: bool)
        ensures
            r == spec_contains_aggregate(*self),
    {
        let nodes = self.nodes(false);
        let mut i: usize = 0;
        while i < nodes.len()
            invariant
                nodes@.len() == walk(*self, false).len(),
                forall|j: int| 0 <= j < nodes@.len() ==> *(#[trigger] nodes@[j]) == walk(*self, false)[j],
                i <= nodes.len(),
                forall|j: int| 0 <= j < i ==> !(walk(*self, false)[j] is Aggregate),
            decreases nodes.len() - i,
        {
            if matches!(nodes[i], Expression::Aggregate { .. }) {
                assert(walk(*self, false)[i as int] is Aggregate);
                return true;
            }
            i = i + 1;
        }
        false
    }
}

} // verus!
