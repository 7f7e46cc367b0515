//! Services on Linux, through `systemctl`.

use vstd::prelude::*;
use super::{
    invocation, invocations_view, rows_view, Invocation, InvocationSpec, ServiceAction, ServiceRow,
    ServiceSpec,
};
use crate::text::{
    chars_of, from_utf8_lossy, join, join_from, lines, split_lines, split_tokens, split_ws,
    tok_finish, tok_fold, trim_end_matches, trim_end_matches_chars, utf8_lossy, vv,
};

verus! {

/// The listing command: every service unit, plain, without legend or pager.
pub fn listing_command() -> (r: Invocation)
    ensures
        r@.program == "systemctl"@,
        r@.args == seq![
            "list-units"@,
            "--type=service"@,
            "--all"@,
            "--plain"@,
            "--no-legend"@,
            "--no-pager"@,
        ],
{
    let args = ["list-units", "--type=service", "--all", "--plain", "--no-legend", "--no-pager"];
    let r = invocation("systemctl", &args);
    assert(args@.map_values(|a: &str| a@) =~= seq![
        "list-units"@,
        "--type=service"@,
        "--all"@,
        "--plain"@,
        "--no-legend"@,
        "--no-pager"@,
    ]);
    r
}

/// The row that one line of the listing gives: its first whitespace-separated
/// field is the unit (`.service` removed from its end), the third and fourth
/// the active and sub states, the rest the description; a line with fewer
/// than four fields gives none.
pub open spec fn unit_line(line: Seq<char>) -> Option<ServiceSpec> {
    let t = split_ws(line);
    if t.len() < 4 {
        None
    } else {
        Some(
            ServiceSpec {
                name: trim_end_matches(t[0], ".service"@),
                state: t[2] + " ("@ + t[3] + ")"@,
                description: join(t.subrange(4, t.len() as int), " "@),
            },
        )
    }
}

/// The rows of a sequence of listing lines, in order.
pub open spec fn unit_lines(ls: Seq<Seq<char>>) -> Seq<ServiceSpec>
    decreases ls.len(),
{
    if ls.len() == 0 {
        seq![]
    } else {
        match unit_line(ls.last()) {
            Some(r) => unit_lines(ls.drop_last()).push(r),
            None => unit_lines(ls.drop_last()),
        }
    }
}

/// The services of a listing's text.
pub open spec fn listing_services(text: Seq<char>) -> Seq<ServiceSpec> {
    unit_lines(lines(text))
}

/// The services that the listing command's output gives; none when the
/// command could not be run.
pub open spec fn fetch_spec(stdout: Option<Seq<u8>>) -> Seq<ServiceSpec> {
    match stdout {
        Some(b) => listing_services(utf8_lossy(b)),
        None => seq![],
    }
}

/// What a listing line with at least four fields must give: a row named
/// after its first field less a final `.service`, whose state is the third
/// field, a space and the fourth in brackets, and whose description is the
/// remaining fields joined by single spaces.
pub open spec fn row_matches_fields(r: ServiceSpec, t: Seq<Seq<char>>) -> bool {
    &&& r.name == trim_end_matches(t[0], ".service"@)
    &&& r.state == t[2] + " ("@ + t[3] + ")"@
    &&& r.description == join(t.subrange(4, t.len() as int), " "@)
}

/// Every listing line with at least four whitespace-separated fields gives
/// exactly one row, in order, whatever its active and sub states (a failed
/// or inactive unit included); a line with fewer fields gives none.
pub proof fn law_every_unit_line_listed(ls: Seq<Seq<char>>)
    ensures
        unit_lines(ls).len() == ls.filter(|l: Seq<char>| split_ws(l).len() >= 4).len(),
        forall|i: int|
            0 <= i < unit_lines(ls).len() ==> row_matches_fields(
                #[trigger] unit_lines(ls)[i],
                split_ws(ls.filter(|l: Seq<char>| split_ws(l).len() >= 4)[i]),
            ),
    decreases ls.len(),
{
    reveal(Seq::filter);
    if ls.len() > 0 {
        law_every_unit_line_listed(ls.drop_last());
        let p = ls.drop_last();
        let fp = p.filter(|l: Seq<char>| split_ws(l).len() >= 4);
        let f = ls.filter(|l: Seq<char>| split_ws(l).len() >= 4);
        if split_ws(ls.last()).len() >= 4 {
            assert(f == fp.push(ls.last()));
            assert forall|i: int| 0 <= i < unit_lines(ls).len() implies row_matches_fields(
                #[trigger] unit_lines(ls)[i],
                split_ws(f[i]),
            ) by {
                if i < unit_lines(p).len() {
                    assert(unit_lines(ls)[i] == unit_lines(p)[i]);
                    assert(f[i] == fp[i]);
                }
            }
        } else {
            assert(f == fp);
        }
    }
}

/// On Linux the services listed are, in order, one per line of the
/// listing's text with at least four whitespace-separated fields, whatever
/// the unit's state.
pub proof fn law_linux_listing_keeps_every_unit(b: Seq<u8>)
    ensures
        ({
            let ls = lines(utf8_lossy(b));
            let full = ls.filter(|l: Seq<char>| split_ws(l).len() >= 4);
            &&& super::fetch_for(super::Platform::Linux, Some(b)).len() == full.len()
            &&& forall|i: int|
                0 <= i < full.len() ==> row_matches_fields(
                    #[trigger] super::fetch_for(super::Platform::Linux, Some(b))[i],
                    split_ws(full[i]),
                )
        }),
{
    law_every_unit_line_listed(lines(utf8_lossy(b)));
}

/// The row of one listing line.
fn parse_unit_line(line: &[char]) -> (r: Option<ServiceRow>)
    ensures
        match r {
            Some(row) => unit_line(line@) == Some(row@),
            None => unit_line(line@) is None,
        },
{
    let t = split_tokens(line, false);
    if t.len() < 4 {
        return None;
    }
    let suffix = chars_of(".service");
    let name = trim_end_matches_chars(t[0].as_slice(), suffix.as_slice());
    let mut state = t[2].clone();
    let open = chars_of(" (");
    let close = chars_of(")");
    let ghost s0 = state@;
    state.extend_from_slice(open.as_slice());
    state.extend_from_slice(t[3].as_slice());
    state.extend_from_slice(close.as_slice());
    let space = chars_of(" ");
    let description = join_from(&t, 4, space.as_slice());
    let row = ServiceRow::from_chars(name.as_slice(), state.as_slice(), description.as_slice());
    proof {
        let ts = split_ws(line@);
        assert(vv(t@) == ts);
        assert(ts[0] == t@[0]@);
        assert(ts[2] == t@[2]@);
        assert(ts[3] == t@[3]@);
        assert(vv(t@).subrange(4, t.len() as int) =~= ts.subrange(4, ts.len() as int));
        assert(state@ =~= ts[2] + " ("@ + ts[3] + ")"@);
    }
    Some(row)
}

/// The services of a listing's text.
pub fn parse_listing(text: &str) -> (r: Vec<ServiceRow>)
    ensures
        rows_view(r@) == listing_services(text@),
{
    let chars = chars_of(text);
    let ls = split_lines(chars.as_slice());
    let mut rows: Vec<ServiceRow> = Vec::new();
    let mut i: usize = 0;
    while i < ls.len()
        invariant
            i <= ls.len(),
            vv(ls@) == lines(text@),
            rows_view(rows@) == unit_lines(vv(ls@).take(i as int)),
        decreases ls.len() - i,
    {
        assert(vv(ls@).take(i + 1).drop_last() =~= vv(ls@).take(i as int));
        assert(vv(ls@).take(i + 1).last() == ls@[i as int]@);
        match parse_unit_line(ls[i].as_slice()) {
            Some(row) => {
                rows.push(row);
                assert(rows_view(rows@) =~= unit_lines(vv(ls@).take(i + 1)));
            },
            None => {},
        }
        i += 1;
    }
    assert(vv(ls@).take(ls.len() as int) =~= vv(ls@));
    rows
}

/// The services that the listing command's output gives (`None` when the
/// command could not be run: then there are none).
pub fn fetch_services(stdout: Option<&[u8]>) -> (r: Vec<ServiceRow>)
    ensures
        rows_view(r@) == fetch_spec(
            match stdout {
                Some(b) => Some(b@),
                None => None,
            },
        ),
{
    match stdout {
        Some(b) => {
            let text = from_utf8_lossy(b);
            parse_listing(text.as_str())
        },
        None => {
            let r: Vec<ServiceRow> = Vec::new();
            assert(rows_view(r@) =~= seq![]);
            r
        },
    }
}

/// The `systemctl` verb of an action.
pub open spec fn verb(action: ServiceAction) -> Seq<char> {
    match action {
        ServiceAction::Start => "start"@,
        ServiceAction::Stop => "stop"@,
        ServiceAction::Restart => "restart"@,
    }
}

/// The one command that applies `action` to the service `name`:
/// `systemctl <verb> <name>`; its outcome is the action's.
pub open spec fn control_plan(name: Seq<char>, action: ServiceAction) -> Seq<InvocationSpec> {
    seq![InvocationSpec { program: "systemctl"@, args: seq![verb(action), name] }]
}

/// The commands that apply `action` to the service `name`.
pub fn control_service(name: &str, action: ServiceAction) -> (r: Result<Vec<Invocation>, String>)
    ensures
        r matches Ok(steps) && invocations_view(steps@) == control_plan(name@, action),
{
    let v = match action {
        ServiceAction::Start => "start",
        ServiceAction::Stop => "stop",
        ServiceAction::Restart => "restart",
    };
    let args = [v, name];
    let inv = invocation("systemctl", &args);
    assert(args@.map_values(|a: &str| a@) =~= seq![verb(action), name@]);
    let mut steps: Vec<Invocation> = Vec::new();
    steps.push(inv);
    assert(invocations_view(steps@) =~= control_plan(name@, action));
    Ok(steps)
}

} // verus!
