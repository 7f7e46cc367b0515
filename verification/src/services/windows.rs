//! Services on Windows, through the service control manager's `sc`.

use vstd::prelude::*;
use super::{
    invocation, invocations_view, rows_view, Invocation, InvocationSpec, ServiceAction, ServiceRow,
    ServiceSpec,
};
use crate::text::{
    chars_eq_str, chars_of, from_utf8_lossy, lines, split_lines, split_tokens, split_ws,
    sub_chars, trim, trim_chars, utf8_lossy, vv,
};

verus! {

/// The listing command: every service, whatever its state.
pub fn listing_command() -> (r: Invocation)
    ensures
        r@.program == "sc"@,
        r@.args == seq!["query"@, "type="@, "service"@, "state="@, "all"@],
{
    let args = ["query", "type=", "service", "state=", "all"];
    let r = invocation("sc", &args);
    assert(args@.map_values(|a: &str| a@) =~= seq![
        "query"@,
        "type="@,
        "service"@,
        "state="@,
        "all"@,
    ]);
    r
}

/// The index of the first `c` in `s`, or -1.
pub open spec fn find_char(s: Seq<char>, c: char) -> int
    decreases s.len(),
{
    if s.len() == 0 {
        -1
    } else if s[0] == c {
        0
    } else {
        let r = find_char(s.drop_first(), c);
        if r < 0 {
            -1
        } else {
            r + 1
        }
    }
}

proof fn lemma_find_char(s: Seq<char>, c: char, i: int)
    requires
        0 <= i <= s.len(),
        forall|j: int| 0 <= j < i ==> s[j] != c,
        i == s.len() || s[i] == c,
    ensures
        find_char(s, c) == (if i == s.len() {
            -1
        } else {
            i
        }),
    decreases i,
{
    if i > 0 {
        lemma_find_char(s.drop_first(), c, i - 1);
    }
}

/// What the listing reader remembers between lines: the name and display
/// name seen since the last service was completed, and the services so far.
pub struct ScState {
    pub name: Option<Seq<char>>,
    pub display: Option<Seq<char>>,
    pub rows: Seq<ServiceSpec>,
}

/// The state word of a `STATE` value: its second whitespace-separated field
/// (`"4  RUNNING"` gives `RUNNING`), or the whole value if it has none.
pub open spec fn state_word(value: Seq<char>) -> Seq<char> {
    let w = split_ws(value);
    if w.len() >= 2 {
        w[1]
    } else {
        value
    }
}

/// One line of the listing read: a trimmed `key : value` line sets the name
/// (`SERVICE_NAME`) or the display name (`DISPLAY_NAME`); a `STATE` line,
/// once a name is known, completes a service whose description is the
/// display name, or else its name; other lines change nothing.
pub open spec fn sc_step(st: ScState, line: Seq<char>) -> ScState {
    let t = trim(line);
    let idx = find_char(t, ':');
    if idx < 0 {
        st
    } else {
        let key = trim(t.subrange(0, idx));
        let value = trim(t.subrange(idx + 1, t.len() as int));
        if key == "SERVICE_NAME"@ {
            ScState { name: Some(value), ..st }
        } else if key == "DISPLAY_NAME"@ {
            ScState { display: Some(value), ..st }
        } else if key == "STATE"@ {
            match st.name {
                Some(n) => ScState {
                    name: None,
                    display: None,
                    rows: st.rows.push(
                        ServiceSpec {
                            name: n,
                            state: state_word(value),
                            description: match st.display {
                                Some(d) => d,
                                None => n,
                            },
                        },
                    ),
                },
                None => st,
            }
        } else {
            st
        }
    }
}

/// The reader's state after a sequence of lines.
pub open spec fn sc_fold(ls: Seq<Seq<char>>) -> ScState
    decreases ls.len(),
{
    if ls.len() == 0 {
        ScState { name: None, display: None, rows: seq![] }
    } else {
        sc_step(sc_fold(ls.drop_last()), ls.last())
    }
}

/// The services of a listing's text.
pub open spec fn listing_services(text: Seq<char>) -> Seq<ServiceSpec> {
    sc_fold(lines(text)).rows
}

/// The services that the listing command's output gives; none when the
/// command could not be run.
pub open spec fn fetch_spec(stdout: Option<Seq<u8>>) -> Seq<ServiceSpec> {
    match stdout {
        Some(b) => listing_services(utf8_lossy(b)),
        None => seq![],
    }
}

/// The view of an optional text.
pub open spec fn opt_view(o: Option<Vec<char>>) -> Option<Seq<char>> {
    match o {
        Some(v) => Some(v@),
        None => None,
    }
}

/// The index of the first `c` in `s`, if any.
fn find(s: &[char], c: char) -> (r: Option<usize>)
    ensures
        match r {
            Some(i) => i < s.len() && find_char(s@, c) == i,
            None => find_char(s@, c) == -1,
        },
{
    let mut i: usize = 0;
    while i < s.len()
        invariant
            i <= s.len(),
            forall|j: int| 0 <= j < i ==> s@[j] != c,
        decreases s.len() - i,
    {
        if s[i] == c {
            proof {
                lemma_find_char(s@, c, i as int);
            }
            return Some(i);
        }
        i += 1;
    }
    proof {
        lemma_find_char(s@, c, i as int);
    }
    None
}

/// The services of a listing's text.
pub fn parse_listing(text: &str) -> (r: Vec<ServiceRow>)
    ensures
        rows_view(r@) == listing_services(text@),
{
    let chars = chars_of(text);
    let ls = split_lines(chars.as_slice());
    let mut rows: Vec<ServiceRow> = Vec::new();
    let mut name: Option<Vec<char>> = None;
    let mut display: Option<Vec<char>> = None;
    let mut i: usize = 0;
    assert(rows_view(rows@) =~= seq![]);
    assert(vv(ls@).take(0) =~= seq![]);
    while i < ls.len()
        invariant
            i <= ls.len(),
            vv(ls@) == lines(text@),
            (ScState { name: opt_view(name), display: opt_view(display), rows: rows_view(rows@) })
                == sc_fold(vv(ls@).take(i as int)),
        decreases ls.len() - i,
    {
        assert(vv(ls@).take(i + 1).drop_last() =~= vv(ls@).take(i as int));
        assert(vv(ls@).take(i + 1).last() == ls@[i as int]@);
        let t = trim_chars(ls[i].as_slice());
        match find(t.as_slice(), ':') {
            None => {},
            Some(idx) => {
                let k = sub_chars(t.as_slice(), 0, idx);
                let key = trim_chars(k.as_slice());
                let v = sub_chars(t.as_slice(), idx + 1, t.len());
                let value = trim_chars(v.as_slice());
                if chars_eq_str(key.as_slice(), "SERVICE_NAME") {
                    name = Some(value);
                } else if chars_eq_str(key.as_slice(), "DISPLAY_NAME") {
                    display = Some(value);
                } else if chars_eq_str(key.as_slice(), "STATE") {
                    match name {
                        Some(n) => {
                            let w = split_tokens(value.as_slice(), false);
                            let state = if w.len() >= 2 {
                                w[1].clone()
                            } else {
                                value.clone()
                            };
                            proof {
                                assert(vv(w@) == split_ws(value@));
                                if w.len() >= 2 {
                                    assert(split_ws(value@)[1] == w@[1]@);
                                }
                            }
                            let description = match display {
                                Some(d) => d,
                                None => n.clone(),
                            };
                            let row = ServiceRow::from_chars(
                                n.as_slice(),
                                state.as_slice(),
                                description.as_slice(),
                            );
                            rows.push(row);
                            name = None;
                            display = None;
                            assert(rows_view(rows@) =~= sc_fold(vv(ls@).take(i + 1)).rows);
                        },
                        None => {
                            name = None;
                        },
                    }
                }
            },
        }
        i += 1;
    }
    assert(vv(ls@).take(ls.len() as int) =~= vv(ls@));
    rows
}

/// The services that the listing command's output gives (`None` when the
/// command could not be run: then there are none).
pub fn fetch_services(stdout: Option<&[u8]>) -> (r: Vec<ServiceRow>)
    ensures
        rows_view(r@) == fetch_spec(
            match stdout {
                Some(b) => Some(b@),
                None => None,
            },
        ),
{
    match stdout {
        Some(b) => {
            let text = from_utf8_lossy(b);
            parse_listing(text.as_str())
        },
        None => {
            let r: Vec<ServiceRow> = Vec::new();
            assert(rows_view(r@) =~= seq![]);
            r
        },
    }
}

/// The commands that apply `action` to the service `name`, in order:
/// `sc start <name>`, `sc stop <name>`, or for a restart `sc stop <name>`
/// then `sc start <name>`. The action's outcome is the last command's; the
/// outcome of a restart's stop is not looked at.
pub open spec fn control_plan(name: Seq<char>, action: ServiceAction) -> Seq<InvocationSpec> {
    let start = InvocationSpec { program: "sc"@, args: seq!["start"@, name] };
    let stop = InvocationSpec { program: "sc"@, args: seq!["stop"@, name] };
    match action {
        ServiceAction::Start => seq![start],
        ServiceAction::Stop => seq![stop],
        ServiceAction::Restart => seq![stop, start],
    }
}

/// The commands that apply `action` to the service `name`.
pub fn control_service(name: &str, action: ServiceAction) -> (r: Result<Vec<Invocation>, String>)
    ensures
        r matches Ok(steps) && invocations_view(steps@) == control_plan(name@, action),
{
    let start = ["start", name];
    let stop = ["stop", name];
    assert(start@.map_values(|a: &str| a@) =~= seq!["start"@, name@]);
    assert(stop@.map_values(|a: &str| a@) =~= seq!["stop"@, name@]);
    let mut steps: Vec<Invocation> = Vec::new();
    match action {
        ServiceAction::Start => {
            steps.push(invocation("sc", &start));
        },
        ServiceAction::Stop => {
            steps.push(invocation("sc", &stop));
        },
        ServiceAction::Restart => {
            steps.push(invocation("sc", &stop));
            steps.push(invocation("sc", &start));
        },
    }
    assert(invocations_view(steps@) =~= control_plan(name@, action));
    Ok(steps)
}

} // verus!
