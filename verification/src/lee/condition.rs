//! A single comparison of a pilot field against a literal value.

use vstd::prelude::*;
use crate::moving::Pilot;
use crate::textnum::{pow10, pow10_i64, lemma_pow10_bounds, fmt_i64, fmt_u64, dec_str_i64, dec_str};

verus! {

/// A comparison operator of the filter language.
#[derive(Debug, Clone, Copy, PartialEq, Eq, Structural)]
pub enum Operator {
    Matches,
    NotMatches,
    Equals,
    NotEquals,
    Less,
    LessOrEqual,
    Greater,
    GreaterOrEqual,
}

/// The source text of an operator.
pub open spec fn spec_operator_literal(op: Operator) -> Seq<char> {
    match op {
        Operator::Matches => "=~"@,
        Operator::NotMatches => "!~"@,
        Operator::Equals => "=="@,
        Operator::NotEquals => "!="@,
        Operator::Less => "<"@,
        Operator::LessOrEqual => "<="@,
        Operator::Greater => ">"@,
        Operator::GreaterOrEqual => ">="@,
    }
}

impl Operator {
    /// The source text of this operator.
    pub fn literal(&self) -> (r: &'static str)
        ensures
            r@ == spec_operator_literal(*self),
    {
        match self {
            Operator::Matches => "=~",
            Operator::NotMatches => "!~",
            Operator::Equals => "==",
            Operator::NotEquals => "!=",
            Operator::Less => "<",
            Operator::LessOrEqual => "<=",
            Operator::Greater => ">",
            Operator::GreaterOrEqual => ">=",
        }
    }
}

/// A decimal number: `mant / 10^scale`.  The lexer keeps the scale at 18
/// or below, so that comparisons stay within 128-bit arithmetic.
#[derive(Debug, Clone, Copy, PartialEq, Eq, Structural)]
pub struct Dec {
    pub mant: i64,
    pub scale: u32,
}

/// A literal comparand: an integer, a decimal number, or a quoted string.
#[derive(Debug)]
pub enum Value {
    Integer(i64),
    Float(Dec),
    String(String),
}

/// Well-formedness of a literal: a decimal scale small enough to compare
/// exactly.
pub open spec fn value_wf(v: Value) -> bool {
    match v {
        Value::Float(d) => d.scale <= 18,
        _ => true,
    }
}

/// Deep equality of literals.
pub open spec fn value_eq(a: Value, b: Value) -> bool {
    match (a, b) {
        (Value::Integer(x), Value::Integer(y)) => x == y,
        (Value::Float(x), Value::Float(y)) => x == y,
        (Value::String(x), Value::String(y)) => x@ == y@,
        _ => false,
    }
}

impl Value {
    /// The type name of this literal.
    pub fn value_type(&self) -> (r: &'static str)
        ensures
            r@ == (match self {
                Value::Integer(_) => "integer"@,
                Value::Float(_) => "float"@,
                Value::String(_) => "string"@,
            }),
    {
        match self {
            Value::Integer(_) => "integer",
            Value::Float(_) => "float",
            Value::String(_) => "string",
        }
    }

    /// A copy of this literal.
    pub fn duplicate(&self) -> (r: Value)
        ensures
            r == *self,
    {
        match self {
            Value::Integer(v) => Value::Integer(*v),
            Value::Float(d) => Value::Float(*d),
            Value::String(s) => Value::String(s.clone()),
        }
    }

    /// A debug rendering: the type name around the value; a decimal shows
    /// its mantissa and its scale as a power of ten.
    pub fn as_string(&self) -> (r: String)
        ensures
            r@ == (match self {
                Value::Integer(v) => "int("@ + dec_str_i64(*v as int) + ")"@,
                Value::Float(d) => "float("@ + dec_str_i64(d.mant as int) + "e-"@
                    + dec_str(d.scale as nat) + ")"@,
                Value::String(s) => "string("@ + s@ + ")"@,
            }),
    {
        match self {
            Value::Integer(v) => {
                let mut r = String::from_str("int(");
                r.append(fmt_i64(*v).as_str());
                r.append(")");
                r
            },
            Value::Float(d) => {
                let mut r = String::from_str("float(");
                r.append(fmt_i64(d.mant).as_str());
                r.append("e-");
                r.append(fmt_u64(d.scale as u64).as_str());
                r.append(")");
                r
            },
            Value::String(s) => {
                let mut r = String::from_str("string(");
                r.append(s.as_str());
                r.append(")");
                r
            },
        }
    }
}

/// Whether a regular expression pattern matches given text: nothing when
/// the pattern does not compile, otherwise whether it matches.  The answer
/// depends on the two strings alone; `regex_is_match` fixes it.
pub uninterp spec fn regex_match_result(pattern: Seq<char>, text: Seq<char>) -> Option<bool>;

/// Relies on the regex crate: `Regex::new` compiles a pattern as a function
/// of the pattern text, and `Regex::is_match` searches the text for a match
/// of it, unanchored.
#[verifier::external_body]
fn regex_is_match(pattern: &String, text: &String) -> (r: Option<bool>)
    ensures
        r == regex_match_result(pattern@, text@),
{
    match regex::Regex::new(pattern) {
        Ok(re) => Some(re.is_match(text)),
        Err(_) => None,
    }
}

/// Six-way comparison under an operator; the match operators are false on
/// numbers.
pub open spec fn spec_cmp_op(op: Operator, lhs: int, rhs: int) -> bool {
    match op {
        Operator::Equals => lhs == rhs,
        Operator::NotEquals => lhs != rhs,
        Operator::Less => lhs < rhs,
        Operator::LessOrEqual => lhs <= rhs,
        Operator::Greater => lhs > rhs,
        Operator::GreaterOrEqual => lhs >= rhs,
        _ => false,
    }
}

/// An integer pilot field compared against a literal.  A decimal comparand
/// is compared exactly: `ext < mant/10^scale` iff `ext*10^scale < mant`.
pub open spec fn spec_eval_i64(c: PartCondition, ext: int) -> bool {
    match c.value {
        Value::Integer(v) => spec_cmp_op(c.operator, ext, v as int),
        Value::Float(d) => spec_cmp_op(c.operator, ext * pow10(d.scale as nat), d.mant as int),
        Value::String(_) => false,
    }
}

/// A coordinate field (microdegrees, a millionth of a degree) compared
/// against a literal denoting degrees, exactly.
pub open spec fn spec_eval_coord(c: PartCondition, micro: int) -> bool {
    match c.value {
        Value::Integer(v) => spec_cmp_op(c.operator, micro, v * 1_000_000),
        Value::Float(d) => spec_cmp_op(
            c.operator,
            micro * pow10(d.scale as nat),
            d.mant * 1_000_000,
        ),
        Value::String(_) => false,
    }
}

/// A string pilot field compared against a literal: exact equality, or a
/// regular-expression match.  A pattern that does not compile makes `=~`
/// false and `!~` true; ordering operators and non-string literals are
/// false.
pub open spec fn spec_eval_str(c: PartCondition, text: Seq<char>) -> bool {
    match c.value {
        Value::String(v) => match c.operator {
            Operator::Matches => match regex_match_result(v@, text) {
                Option::Some(b) => b,
                Option::None => false,
            },
            Operator::NotMatches => match regex_match_result(v@, text) {
                Option::Some(b) => !b,
                Option::None => true,
            },
            Operator::Equals => text == v@,
            Operator::NotEquals => text != v@,
            _ => false,
        },
        _ => false,
    }
}

/// The data of one comparison: field name, operator, literal.
#[derive(Debug)]
pub struct PartCondition {
    pub ident: String,
    pub operator: Operator,
    pub value: Value,
}

fn cmp_i128(op: Operator, lhs: i128, rhs: i128) -> (r: bool)
    ensures
        r == spec_cmp_op(op, lhs as int, rhs as int),
{
    match op {
        Operator::Equals => lhs == rhs,
        Operator::NotEquals => lhs != rhs,
        Operator::Less => lhs < rhs,
        Operator::LessOrEqual => lhs <= rhs,
        Operator::Greater => lhs > rhs,
        Operator::GreaterOrEqual => lhs >= rhs,
        _ => false,
    }
}

impl PartCondition {
    /// Well-formedness of the literal.
    pub open spec fn wf(self) -> bool {
        value_wf(self.value)
    }

    /// Deep equality.
    pub open spec fn spec_eq(self, other: PartCondition) -> bool {
        &&& self.ident@ == other.ident@
        &&& self.operator == other.operator
        &&& value_eq(self.value, other.value)
    }

    /// Evaluate against an integer field.
    pub fn eval_i64(&self, ext_val: i64) -> (r: bool)
        requires
            self.wf(),
        ensures
            r == spec_eval_i64(*self, ext_val as int),
    {
        match &self.value {
            Value::Integer(v) => cmp_i128(self.operator, ext_val as i128, *v as i128),
            Value::Float(d) => {
                let p: i64 = pow10_i64(d.scale);
                proof {
                    lemma_pow10_bounds(d.scale as nat);
                    assert(-170_141_183_460_469_231_731_687_303_715_884_105_728
                        <= (ext_val as int) * (p as int)
                        <= 170_141_183_460_469_231_731_687_303_715_884_105_727)
                        by (nonlinear_arith)
                        requires
                            -9_223_372_036_854_775_808 <= ext_val as int
                                <= 9_223_372_036_854_775_807,
                            1 <= p as int <= 1_000_000_000_000_000_000,
                    ;
                }
                let lhs: i128 = (ext_val as i128) * (p as i128);
                cmp_i128(self.operator, lhs, d.mant as i128)
            },
            Value::String(_) => false,
        }
    }

    /// Evaluate against a coordinate field given in microdegrees.
    pub fn eval_coord(&self, micro: i64) -> (r: bool)
        requires
            self.wf(),
        ensures
            r == spec_eval_coord(*self, micro as int),
    {
        match &self.value {
            Value::Integer(v) => {
                let lhs: i128 = micro as i128;
                let rhs: i128 = (*v as i128) * 1_000_000;
                cmp_i128(self.operator, lhs, rhs)
            },
            Value::Float(d) => {
                let p: i64 = pow10_i64(d.scale);
                proof {
                    lemma_pow10_bounds(d.scale as nat);
                    assert(-170_141_183_460_469_231_731_687_303_715_884_105_728
                        <= (micro as int) * (p as int)
                        <= 170_141_183_460_469_231_731_687_303_715_884_105_727)
                        by (nonlinear_arith)
                        requires
                            -9_223_372_036_854_775_808 <= micro as int
                                <= 9_223_372_036_854_775_807,
                            1 <= p as int <= 1_000_000_000_000_000_000,
                    ;
                }
                let lhs: i128 = (micro as i128) * (p as i128);
                let rhs: i128 = (d.mant as i128) * 1_000_000;
                cmp_i128(self.operator, lhs, rhs)
            },
            Value::String(_) => false,
        }
    }

    /// Evaluate against a string field.
    pub fn eval_str(&self, ext_val: &String) -> (r: bool)
        ensures
            r == spec_eval_str(*self, ext_val@),
    {
        match &self.value {
            Value::Integer(_) => false,
            Value::Float(_) => false,
            Value::String(v) => match self.operator {
                Operator::Matches => match regex_is_match(v, ext_val) {
                    Option::Some(b) => b,
                    Option::None => false,
                },
                Operator::NotMatches => match regex_is_match(v, ext_val) {
                    Option::Some(b) => !b,
                    Option::None => true,
                },
                Operator::Equals => ext_val.eq(v),
                Operator::NotEquals => !ext_val.eq(v),
                _ => false,
            },
        }
    }

    /// A debug rendering of the comparison.
    pub fn repr(&self) -> (r: String)
        ensures
            r@.len() >= 0,
    {
        let mut r = String::from_str("PartCondition<(");
        r.append(self.ident.as_str());
        r.append(" ");
        r.append(self.operator.literal());
        r.append(" ");
        let v = self.value.as_string();
        r.append(v.as_str());
        r.append(")>");
        r
    }

    /// A copy of the comparison data.
    pub fn duplicate(&self) -> (r: PartCondition)
        ensures
            r == *self,
    {
        PartCondition {
            ident: self.ident.clone(),
            operator: self.operator,
            value: self.value.duplicate(),
        }
    }
}

/// The pilot field a condition was compiled against.
#[derive(Debug, Clone, Copy, PartialEq, Eq, Structural)]
pub enum FieldRef {
    Callsign,
    Name,
    Alt,
    Gs,
    Lat,
    Lng,
    Aircraft,
    Arrival,
    Departure,
}

/// A compiled field comparison applied to one pilot.  Fields drawn from the
/// flight plan are false when no flight plan is filed.
pub open spec fn spec_apply_field(f: FieldRef, c: PartCondition, p: Pilot) -> bool {
    match f {
        FieldRef::Callsign => spec_eval_str(c, p.callsign@),
        FieldRef::Name => spec_eval_str(c, p.name@),
        FieldRef::Alt => spec_eval_i64(c, p.altitude as int),
        FieldRef::Gs => spec_eval_i64(c, p.groundspeed as int),
        FieldRef::Lat => spec_eval_coord(c, p.position.lat as int),
        FieldRef::Lng => spec_eval_coord(c, p.position.lng as int),
        FieldRef::Aircraft => match p.flight_plan {
            Option::Some(fp) => spec_eval_str(c, fp.aircraft@),
            Option::None => false,
        },
        FieldRef::Arrival => match p.flight_plan {
            Option::Some(fp) => spec_eval_str(c, fp.arrival@),
            Option::None => false,
        },
        FieldRef::Departure => match p.flight_plan {
            Option::Some(fp) => spec_eval_str(c, fp.departure@),
            Option::None => false,
        },
    }
}

/// One comparison of the expression tree, carrying its compiled field
/// reference once `compile` has resolved the identifier.
#[derive(Debug)]
pub struct Condition {
    pub ident: String,
    pub operator: Operator,
    pub value: Value,
    pub field: Option<FieldRef>,
}

/// What an (optionally compiled) condition says of one pilot: false until
/// compiled, the compiled field comparison afterwards.
pub open spec fn spec_eval_condition(c: Condition, p: Pilot) -> bool {
    match c.field {
        Option::Some(f) => spec_apply_field(f, c.part(), p),
        Option::None => false,
    }
}

impl Condition {
    /// Well-formedness of the literal.
    pub open spec fn wf(self) -> bool {
        value_wf(self.value)
    }

    /// The comparison data without the compiled state.
    pub open spec fn part(self) -> PartCondition {
        PartCondition { ident: self.ident, operator: self.operator, value: self.value }
    }

    /// A debug rendering of the comparison.
    pub fn repr(&self) -> (r: String)
        ensures
            r@.len() >= 0,
    {
        let mut r = String::from_str("Condition<(");
        r.append(self.ident.as_str());
        r.append(" ");
        r.append(self.operator.literal());
        r.append(" ");
        let v = self.value.as_string();
        r.append(v.as_str());
        r.append(")>");
        r
    }

    /// The comparison data, copied out.
    pub fn part_clone(&self) -> (r: PartCondition)
        ensures
            r.ident@ == self.ident@,
            r.operator == self.operator,
            r == self.part(),
    {
        PartCondition {
            ident: self.ident.clone(),
            operator: self.operator,
            value: self.value.duplicate(),
        }
    }

    /// Resolve the identifier against the allowed pilot fields; on an
    /// unknown identifier the condition is returned unchanged with the
    /// compile error.
    pub fn compile(self) -> (r: Result<Condition, (Condition, crate::lee::error::CompileError)>)
        ensures
            match r {
                Ok(c) => crate::web::filter::spec_field_of(self.ident@) is Some
                    && c == (Condition {
                        field: Some(crate::web::filter::spec_field_of(self.ident@)->Some_0),
                        ..self
                    }),
                Err(p) => crate::web::filter::spec_field_of(self.ident@) is None
                    && p.0 == self,
            },
    {
        let part = self.part_clone();
        match crate::web::filter::compile_filter(&part) {
            Ok(f) => {
                let mut c = self;
                c.field = Some(f);
                Ok(c)
            },
            Err(e) => Err((self, e)),
        }
    }

    /// Evaluate against one pilot: false when not yet compiled.
    pub fn evaluate(&self, model: &Pilot) -> (r: bool)
        requires
            self.wf(),
        ensures
            r == spec_eval_condition(*self, *model),
    {
        match &self.field {
            Option::None => false,
            Option::Some(f) => {
                let c = self.part_clone();
                match f {
                    FieldRef::Callsign => c.eval_str(&model.callsign),
                    FieldRef::Name => c.eval_str(&model.name),
                    FieldRef::Alt => c.eval_i64(model.altitude as i64),
                    FieldRef::Gs => c.eval_i64(model.groundspeed as i64),
                    FieldRef::Lat => c.eval_coord(model.position.lat),
                    FieldRef::Lng => c.eval_coord(model.position.lng),
                    FieldRef::Aircraft => match &model.flight_plan {
                        Option::Some(fp) => c.eval_str(&fp.aircraft),
                        Option::None => false,
                    },
                    FieldRef::Arrival => match &model.flight_plan {
                        Option::Some(fp) => c.eval_str(&fp.arrival),
                        Option::None => false,
                    },
                    FieldRef::Departure => match &model.flight_plan {
                        Option::Some(fp) => c.eval_str(&fp.departure),
                        Option::None => false,
                    },
                }
            },
        }
    }
}

} // verus!
