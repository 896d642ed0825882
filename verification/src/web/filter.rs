//! Binding the filter language to pilots: the allow-list of queryable
//! fields, and the evaluation of a compiled condition against one pilot.

use vstd::prelude::*;
use crate::lee::condition::{FieldRef, PartCondition, spec_apply_field};
use crate::lee::error::CompileError;
use crate::lee::expression::{Expression, expr_compiled, expr_wf};
use crate::lee::expression::{compiled_matches, expr_has_unknown_ident};
use crate::lee::parser::make_expr;
use crate::moving::Pilot;
use crate::web::error::APIError;
use crate::web::types::QueryCheckOkResponse;

verus! {

/// The pilot field an identifier names, when the identifier is allowed.
pub open spec fn spec_field_of(id: Seq<char>) -> Option<FieldRef> {
    if id == "callsign"@ {
        Some(FieldRef::Callsign)
    } else if id == "name"@ {
        Some(FieldRef::Name)
    } else if id == "alt"@ {
        Some(FieldRef::Alt)
    } else if id == "gs"@ {
        Some(FieldRef::Gs)
    } else if id == "lat"@ {
        Some(FieldRef::Lat)
    } else if id == "lng"@ {
        Some(FieldRef::Lng)
    } else if id == "aircraft"@ {
        Some(FieldRef::Aircraft)
    } else if id == "arrival"@ {
        Some(FieldRef::Arrival)
    } else if id == "departure"@ {
        Some(FieldRef::Departure)
    } else {
        None
    }
}

fn is_kw(s: &String, kw: &str) -> (r: bool)
    ensures
        r == (s@ == kw@),
{
    s.eq(&kw.to_owned())
}

/// The compilation callback: resolve a condition's identifier against the
/// allowed pilot fields, or reject it with the list of accepted names.
pub fn compile_filter(cond: &PartCondition) -> (r: Result<FieldRef, CompileError>)
    ensures
        match r {
            Ok(f) => spec_field_of(cond.ident@) == Some(f),
            Err(e) => spec_field_of(cond.ident@) is None
                && e.msg@ == cond.ident@
                    + " is not a valid field to query, valid fields are: "@
                    + "[callsign, name, alt, gs, lat, lng, aircraft, arrival, departure]"@,
        },
{
    if is_kw(&cond.ident, "callsign") {
        Ok(FieldRef::Callsign)
    } else if is_kw(&cond.ident, "name") {
        Ok(FieldRef::Name)
    } else if is_kw(&cond.ident, "alt") {
        Ok(FieldRef::Alt)
    } else if is_kw(&cond.ident, "gs") {
        Ok(FieldRef::Gs)
    } else if is_kw(&cond.ident, "lat") {
        Ok(FieldRef::Lat)
    } else if is_kw(&cond.ident, "lng") {
        Ok(FieldRef::Lng)
    } else if is_kw(&cond.ident, "aircraft") {
        Ok(FieldRef::Aircraft)
    } else if is_kw(&cond.ident, "arrival") {
        Ok(FieldRef::Arrival)
    } else if is_kw(&cond.ident, "departure") {
        Ok(FieldRef::Departure)
    } else {
        let mut msg = cond.ident.clone();
        msg.append(" is not a valid field to query, valid fields are: ");
        msg.append("[callsign, name, alt, gs, lat, lng, aircraft, arrival, departure]");
        Err(CompileError { msg })
    }
}

/// Evaluate a compiled field comparison against one pilot.
pub fn apply_filter(field: FieldRef, cond: &PartCondition, pilot: &Pilot) -> (r: bool)
    requires
        cond.wf(),
    ensures
        r == spec_apply_field(field, *cond, *pilot),
{
    match field {
        FieldRef::Callsign => cond.eval_str(&pilot.callsign),
        FieldRef::Name => cond.eval_str(&pilot.name),
        FieldRef::Alt => cond.eval_i64(pilot.altitude as i64),
        FieldRef::Gs => cond.eval_i64(pilot.groundspeed as i64),
        FieldRef::Lat => cond.eval_coord(pilot.position.lat),
        FieldRef::Lng => cond.eval_coord(pilot.position.lng),
        FieldRef::Aircraft => match &pilot.flight_plan {
            Option::Some(fp) => cond.eval_str(&fp.aircraft),
            Option::None => false,
        },
        FieldRef::Arrival => match &pilot.flight_plan {
            Option::Some(fp) => cond.eval_str(&fp.arrival),
            Option::None => false,
        },
        FieldRef::Departure => match &pilot.flight_plan {
            Option::Some(fp) => cond.eval_str(&fp.departure),
            Option::None => false,
        },
    }
}


/// Parse and compile a client's filter query; any failure becomes the
/// client error the API surfaces.
pub fn make_filter(query: &str) -> (r: Result<Expression, APIError>)
    ensures
        match r {
            Ok(e) => expr_wf(e) && expr_compiled(e)
                && exists|e0: Expression| #[trigger] crate::lee::expression::compiled_matches(
                    e0,
                    e,
                ) && !crate::lee::expression::expr_has_unknown_ident(e0),
            Err(err) => err.code == 400,
        },
{
    let expr = match make_expr(query) {
        Ok(e) => e,
        Err(pe) => {
            return Err(APIError::from_parse(&pe));
        },
    };
    let ghost e0 = expr;
    match expr.compile() {
        Ok(e) => {
            proof {
                assert(crate::lee::expression::compiled_matches(e0, e)
                    && !crate::lee::expression::expr_has_unknown_ident(e0));
            }
            Ok(e)
        },
        Err(ce) => Err(APIError::from_compile(&ce)),
    }
}

/// Validate a filter query without running it: the affirmative answer, or
/// the parse or compile error the stream endpoint would give.
pub fn check_query(query: &str) -> (r: Result<QueryCheckOkResponse, APIError>)
    ensures
        match r {
            Ok(resp) => resp.status@ == "ok"@,
            Err(err) => err.code == 400,
        },
{
    match make_filter(query) {
        Ok(_) => Ok(QueryCheckOkResponse { status: "ok" }),
        Err(e) => Err(e),
    }
}

} // verus!
