//! What the server says of its configuration.

use vstd::prelude::*;

use crate::json::{json_text, members_are_read_by_name, Json, JsonView};
use crate::text::{dec, dec_u64, same};

verus! {

/// A line for a member of a report, where it is there.
pub open spec fn member_line(resp: JsonView, label: Seq<char>, key: Seq<char>) -> Seq<char> {
    match resp.get(key) {
        Some(v) => label + json_text(v) + "\n"@,
        None => seq![],
    }
}

fn push_member(out: &mut String, resp: &Json, label: &str, key: &str)
    ensures
        final(out)@ == old(out)@ + member_line(resp@, label@, key@),
{
    let ghost before = out@;
    match resp.get(key) {
        Some(v) => {
            out.append(label);
            out.append(v.to_text().as_str());
            out.append("\n");
            assert(out@ =~= before + (label@ + json_text(v@) + "\n"@));
        },
        None => {
            assert(out@ =~= before + seq![]);
        },
    }
}

/// The errors of a report, one to a line.
pub open spec fn error_lines(errors: Seq<JsonView>) -> Seq<char>
    decreases errors.len(),
{
    if errors.len() == 0 {
        seq![]
    } else {
        let e = errors.last();
        error_lines(errors.drop_last()) + ("  "@ + (match e.as_str() {
            Some(s) => s,
            None => json_text(e),
        }) + "\n"@)
    }
}

fn push_errors(out: &mut String, resp: &Json)
    ensures
        final(out)@ == old(out)@ + error_lines(resp@.at("errors"@).elements()),
{
    let ghost before = out@;
    let ghost all = resp@.at("errors"@).elements();
    let errors = match resp.get("errors") {
        Some(e) => e.as_array(),
        None => None,
    };
    match errors {
        Some(errors) => {
            let mut i: usize = 0;
            assert(all.take(0) =~= seq![]);
            assert(out@ =~= before + error_lines(all.take(0)));
            while i < errors.len()
                invariant
                    0 <= i <= errors@.len(),
                    all == errors@.map_values(|v: Json| v@),
                    out@ == before + error_lines(all.take(i as int)),
                decreases errors@.len() - i,
            {
                let ghost next = all.take(i + 1);
                assert(next.drop_last() =~= all.take(i as int));
                assert(next.last() == errors@[i as int]@);
                let text = match errors[i].as_str() {
                    Some(s) => s.to_owned(),
                    None => errors[i].to_text(),
                };
                out.append("  ");
                out.append(text.as_str());
                out.append("\n");
                assert(out@ =~= before + error_lines(next));
                i += 1;
            }
            assert(all.take(i as int) =~= all);
        },
        None => {
            assert(all =~= seq![]);
            assert(out@ =~= before + seq![]);
        },
    }
}

/// The report of a reload, and whether it went well.
pub open spec fn reload_spec(resp: JsonView) -> (bool, Seq<char>) {
    if resp.at("status"@).as_str() == Some("ok"@) {
        (
            true,
            "Config reloaded:\n"@ + member_line(resp, "  workflows: "@, "workflows"@) + member_line(
                resp,
                "  runtimes:  "@,
                "runtimes"@,
            ) + member_line(resp, "  personas:  "@, "personas"@) + member_line(resp, "  triggers:  "@, "triggers"@),
        )
    } else {
        (false, "Reload failed:\n"@ + error_lines(resp.at("errors"@).elements()))
    }
}

/// Renders the report of a reload, and says whether it went well.
pub fn reload_report(resp: &Json) -> (r: (bool, String))
    ensures
        (r.0, r.1@) == reload_spec(resp@),
{
    let ok = match resp.get_str("status") {
        Some(s) => same(s, "ok"),
        None => false,
    };
    if ok {
        let mut out = "Config reloaded:\n".to_owned();
        push_member(&mut out, resp, "  workflows: ", "workflows");
        push_member(&mut out, resp, "  runtimes:  ", "runtimes");
        push_member(&mut out, resp, "  personas:  ", "personas");
        push_member(&mut out, resp, "  triggers:  ", "triggers");
        (true, out)
    } else {
        let mut out = "Reload failed:\n".to_owned();
        push_errors(&mut out, resp);
        (false, out)
    }
}

/// The lines of the categories in which something is added or removed.
pub open spec fn change_lines(changes: Seq<(Seq<char>, JsonView)>) -> Seq<char>
    decreases changes.len(),
{
    if changes.len() == 0 {
        seq![]
    } else {
        let (category, diff) = changes.last();
        let added = diff.at("added"@).elements().len();
        let removed = diff.at("removed"@).elements().len();
        change_lines(changes.drop_last()) + (if added > 0 || removed > 0 {
            "  "@ + category + ": +"@ + dec(added) + " -"@ + dec(removed) + "\n"@
        } else {
            seq![]
        })
    }
}

/// The members of an object; none where the value is no object.
pub open spec fn members_of(v: JsonView) -> Seq<(Seq<char>, JsonView)> {
    match v {
        JsonView::Object(m) => m,
        _ => seq![],
    }
}

/// The report of a check, and whether the configuration is valid.
pub open spec fn check_spec(resp: JsonView) -> (bool, Seq<char>) {
    if resp.at("valid"@).as_bool() == Some(true) {
        (true, "Config valid.\n"@ + change_lines(members_of(resp.at("changes"@))))
    } else {
        (false, "Config invalid:\n"@ + error_lines(resp.at("errors"@).elements()))
    }
}

fn count_of(diff: &Json, key: &str) -> (n: usize)
    ensures
        n == diff@.at(key@).elements().len(),
{
    match diff.get(key) {
        Some(v) => match v.as_array() {
            Some(a) => a.len(),
            None => 0,
        },
        None => 0,
    }
}

fn push_changes(out: &mut String, changes: &Json)
    ensures
        final(out)@ == old(out)@ + change_lines(members_of(changes@)),
{
    let ghost before = out@;
    let ghost all = members_of(changes@);
    match changes {
        Json::Object(m) => {
            let mut i: usize = 0;
            assert(all.take(0) =~= seq![]);
            assert(out@ =~= before + change_lines(all.take(0)));
            while i < m.len()
                invariant
                    *changes == Json::Object(*m),
                    all == members_of(changes@),
                    all.len() == m@.len(),
                    0 <= i <= m@.len(),
                    out@ == before + change_lines(all.take(i as int)),
                decreases m@.len() - i,
            {
                let ghost next = all.take(i + 1);
                assert(next.drop_last() =~= all.take(i as int));
                assert(next.last() == (m@[i as int].0@, m@[i as int].1@));
                let added = count_of(&m[i].1, "added");
                let removed = count_of(&m[i].1, "removed");
                if added > 0 || removed > 0 {
                    out.append("  ");
                    out.append(m[i].0.as_str());
                    out.append(": +");
                    out.append(dec_u64(added as u64).as_str());
                    out.append(" -");
                    out.append(dec_u64(removed as u64).as_str());
                    out.append("\n");
                }
                assert(out@ =~= before + change_lines(next));
                i += 1;
            }
            assert(all.take(i as int) =~= all);
        },
        _ => {
            assert(all =~= seq![]);
            assert(out@ =~= before + seq![]);
        },
    }
}

/// Renders the report of a check, and says whether the configuration is valid.
pub fn check_report(resp: &Json) -> (r: (bool, String))
    ensures
        (r.0, r.1@) == check_spec(resp@),
{
    let valid = match resp.get("valid") {
        Some(v) => match v.as_bool() {
            Some(b) => b,
            None => false,
        },
        None => false,
    };
    if valid {
        let mut out = "Config valid.\n".to_owned();
        match resp.get("changes") {
            Some(c) => push_changes(&mut out, c),
            None => {
                assert(members_of(resp@.at("changes"@)) =~= seq![]);
                assert(out@ =~= out@ + seq![]);
            },
        }
        (true, out)
    } else {
        let mut out = "Config invalid:\n".to_owned();
        push_errors(&mut out, resp);
        (false, out)
    }
}

/// A report is good exactly where the server says so: a reload by its status, a check by its
/// verdict. A bad one lists every error on a line of its own, as text where it is one.
pub proof fn reports_follow_the_verdict(resp: JsonView, errors: Seq<JsonView>, e: JsonView)
    ensures
        reload_spec(resp).0 <==> resp.at("status"@).as_str() == Some("ok"@),
        check_spec(resp).0 <==> resp.at("valid"@) == JsonView::Bool(true),
        !reload_spec(resp).0 ==> reload_spec(resp).1 == "Reload failed:\n"@ + error_lines(resp.at("errors"@).elements()),
        !check_spec(resp).0 ==> check_spec(resp).1 == "Config invalid:\n"@ + error_lines(resp.at("errors"@).elements()),
        check_spec(resp).0 ==> check_spec(resp).1 == "Config valid.\n"@ + change_lines(
            members_of(resp.at("changes"@)),
        ),
        error_lines(Seq::empty()).len() == 0,
        e is String ==> error_lines(errors.push(e)) == error_lines(errors) + ("  "@ + e->String_0 + "\n"@),
        !(e is String) ==> error_lines(errors.push(e)) == error_lines(errors) + ("  "@ + json_text(e) + "\n"@),
{
    assert(errors.push(e).drop_last() =~= errors);
    assert(errors.push(e).last() == e);
}

/// A category in which something is added or removed has a line with both numbers, behind the
/// lines before it; one without changes has none.
pub proof fn changes_are_counted_by_category(
    changes: Seq<(Seq<char>, JsonView)>,
    category: Seq<char>,
    added: Seq<JsonView>,
    removed: Seq<JsonView>,
)
    ensures
        ({
            let diff = JsonView::Object(
                seq![("added"@, JsonView::Array(added)), ("removed"@, JsonView::Array(removed))],
            );
            let after = change_lines(changes.push((category, diff)));
            if added.len() == 0 && removed.len() == 0 {
                after == change_lines(changes)
            } else {
                after == change_lines(changes) + ("  "@ + category + ": +"@ + dec(added.len()) + " -"@ + dec(
                    removed.len(),
                ) + "\n"@)
            }
        }),
        change_lines(Seq::empty()).len() == 0,
{
    reveal_strlit("added");
    reveal_strlit("removed");
    assert("added"@[0] != "removed"@[0]);
    let a = ("added"@, JsonView::Array(added));
    let r = ("removed"@, JsonView::Array(removed));
    let m = seq![a, r];
    assert(m =~= Seq::empty() + seq![a] + seq![r]);
    members_are_read_by_name(Seq::empty(), a.0, a.1, seq![r]);
    assert(m =~= seq![a] + seq![r] + Seq::empty());
    members_are_read_by_name(seq![a], r.0, r.1, Seq::empty());
    let all = changes.push((category, JsonView::Object(m)));
    assert(all.drop_last() =~= changes);
    assert(change_lines(changes) + Seq::<char>::empty() =~= change_lines(changes));
}

/// A good reload tells the number of workflows, runtimes, personas and triggers, each that the
/// server tells.
pub proof fn reloads_tell_what_was_loaded(resp: JsonView, key: Seq<char>, label: Seq<char>)
    requires
        resp.at("status"@).as_str() == Some("ok"@),
    ensures
        reload_spec(resp).1 == "Config reloaded:\n"@ + member_line(resp, "  workflows: "@, "workflows"@) + member_line(
            resp,
            "  runtimes:  "@,
            "runtimes"@,
        ) + member_line(resp, "  personas:  "@, "personas"@) + member_line(resp, "  triggers:  "@, "triggers"@),
        resp.get(key) is Some ==> member_line(resp, label, key) == label + json_text(resp.get(key)->0) + "\n"@,
        resp.get(key) is None ==> member_line(resp, label, key).len() == 0,
{
}

} // verus!
