use vstd::prelude::*;
use vstd::float::FloatBitsProperties;
use vstd::string::to_string_from_display_ensures;

use crate::error::DumpError;
use crate::timeline::Event;

verus! {

// The records that the `vcd` parser hands back. The enums and the structs of
// the header are visible to the proofs; the leaf types are carried opaque.
#[verifier::external_type_specification]
#[verifier::external_body]
pub struct ExIdCode(vcd::IdCode);

#[verifier::external_type_specification]
#[verifier::external_body]
pub struct ExVector(vcd::Vector);

#[verifier::external_type_specification]
#[verifier::external_body]
pub struct ExTimescaleUnit(vcd::TimescaleUnit);

#[verifier::external_type_specification]
#[verifier::external_body]
pub struct ExScopeType(vcd::ScopeType);

#[verifier::external_type_specification]
#[verifier::external_body]
pub struct ExVarType(vcd::VarType);

#[verifier::external_type_specification]
#[verifier::external_body]
pub struct ExReferenceIndex(vcd::ReferenceIndex);

#[verifier::external_type_specification]
#[verifier::external_body]
pub struct ExSimulationCommand(vcd::SimulationCommand);

#[verifier::external_type_specification]
pub struct ExValue(vcd::Value);

#[verifier::external_type_specification]
pub struct ExCommand(vcd::Command);

#[verifier::external_type_specification]
pub struct ExScopeItem(vcd::ScopeItem);

#[verifier::external_type_specification]
pub struct ExScope(vcd::Scope);

#[verifier::external_type_specification]
pub struct ExVar(vcd::Var);

#[verifier::external_type_specification]
pub struct ExHeader(vcd::Header);

/// What the `vcd` parser makes of a dump's text: its header and the records
/// of its body, or `None` where either part is malformed.
pub uninterp spec fn parsed_dump(bytes: Seq<u8>) -> Option<(vcd::Header, Seq<vcd::Command>)>;

/// Relies on `vcd::Parser`: `parse_header` reads the declarations up to
/// `$enddefinitions` and fails where they are missing or malformed; iterating
/// the parser afterwards yields the records of the body, failing on a
/// malformed one. Both depend on the text alone.
#[verifier::external_body]
pub(crate) fn parse_records(bytes: &[u8]) -> (r: Result<(vcd::Header, Vec<vcd::Command>), DumpError>)
    ensures
        r is Ok <==> parsed_dump(bytes@) is Some,
        r is Ok ==> r->Ok_0.0 == parsed_dump(bytes@)->Some_0.0 && r->Ok_0.1@ == parsed_dump(
            bytes@,
        )->Some_0.1,
        r is Err ==> r->Err_0 == DumpError::Header || r->Err_0 == DumpError::Body,
{
    let mut parser = vcd::Parser::new(bytes);
    let header = parser.parse_header().map_err(|_| DumpError::Header)?;
    let commands = parser.collect::<Result<Vec<vcd::Command>, _>>().map_err(|_| DumpError::Body)?;
    Ok((header, commands))
}

/// The bit pattern of the value of a real change.
pub open spec fn real_value_bits(c: vcd::Command) -> u64 {
    match c {
        vcd::Command::ChangeReal(_, v) => v.to_bits_spec(),
        _ => 0,
    }
}

/// Relies on `f64::to_bits`: the bit pattern of a real change's value.
#[verifier::external_body]
fn real_bits(c: &vcd::Command) -> (r: u64)
    requires
        *c matches vcd::Command::ChangeReal(_, _),
    ensures
        r == real_value_bits(*c),
{
    match c {
        vcd::Command::ChangeReal(_, v) => v.to_bits(),
        _ => 0,
    }
}

/// Parses a dump into its header and the records of its body.
pub fn read_dump(bytes: &[u8]) -> (r: Result<(vcd::Header, Vec<vcd::Command>), DumpError>)
    ensures
        r is Ok <==> parsed_dump(bytes@) is Some,
        r is Ok ==> r->Ok_0.0 == parsed_dump(bytes@)->Some_0.0 && r->Ok_0.1@ == parsed_dump(
            bytes@,
        )->Some_0.1,
        r is Err ==> r->Err_0 == DumpError::Header || r->Err_0 == DumpError::Body,
{
    parse_records(bytes)
}

/// The signal identifier that an event names, if any.
pub open spec fn event_id(e: Event) -> Option<String> {
    match e {
        Event::Scalar(id, _) => Some(id),
        Event::Real(id, _) => Some(id),
        Event::Unknown(id) => Some(id),
        Event::Text(id) => Some(id),
        _ => None,
    }
}

/// Whether `text` is the identifier code `code` written out.
pub open spec fn code_text(code: vcd::IdCode, text: Option<String>) -> bool {
    text is Some && to_string_from_display_ensures::<vcd::IdCode>(&code, text->Some_0)
}

/// Whether `e` is the event that stands for the record `c`: the kind of
/// change and the value agree, the identifier is the record's code as text.
pub open spec fn event_matches(e: Event, c: vcd::Command) -> bool {
    match c {
        vcd::Command::Timestamp(t) => e == Event::Timestamp(t),
        vcd::Command::ChangeScalar(id, v) => code_text(id, event_id(e)) && match v {
            vcd::Value::V0 => e is Scalar && !e->Scalar_1,
            vcd::Value::V1 => e is Scalar && e->Scalar_1,
            _ => e is Unknown,
        },
        vcd::Command::ChangeReal(id, _) => code_text(id, event_id(e)) && e is Real && e->Real_1
            == real_value_bits(c),
        vcd::Command::ChangeString(id, _) => code_text(id, event_id(e)) && e is Text,
        _ => e is Other,
    }
}

/// The event that stands for one record of the body.
pub fn event_of(c: &vcd::Command) -> (r: Event)
    ensures
        event_matches(r, *c),
{
    match c {
        vcd::Command::Timestamp(t) => Event::Timestamp(*t),
        vcd::Command::ChangeScalar(id, v) => match v {
            vcd::Value::V0 => Event::Scalar(id.to_string(), false),
            vcd::Value::V1 => Event::Scalar(id.to_string(), true),
            _ => Event::Unknown(id.to_string()),
        },
        vcd::Command::ChangeReal(id, _) => Event::Real(id.to_string(), real_bits(c)),
        vcd::Command::ChangeString(id, _) => Event::Text(id.to_string()),
        _ => Event::Other,
    }
}

/// Whether `ev` stands, event for record, for the records `cs`.
pub open spec fn events_match(ev: Seq<Event>, cs: Seq<vcd::Command>) -> bool {
    ev.len() == cs.len() && forall|i: int| 0 <= i < ev.len() ==> event_matches(#[trigger] ev[i], cs[i])
}

/// The events that stand for the records of a body, one for one.
pub fn events_of(commands: &Vec<vcd::Command>) -> (r: Vec<Event>)
    ensures
        r.len() == commands.len(),
        forall|i: int| 0 <= i < r.len() ==> event_matches(#[trigger] r[i], commands[i]),
        events_match(r@, commands@),
{
    let mut r: Vec<Event> = Vec::new();
    let mut i: usize = 0;
    while i < commands.len()
        invariant
            i <= commands.len(),
            r.len() == i,
            forall|j: int| 0 <= j < i ==> event_matches(#[trigger] r[j], commands[j]),
        decreases commands.len() - i,
    {
        r.push(event_of(&commands[i]));
        i = i + 1;
    }
    r
}

} // verus!
