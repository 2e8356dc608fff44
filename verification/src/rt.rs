//! The helper that steps call to talk to their runner: its messages, and the answers.

use vstd::prelude::*;

use base64::Engine;

use crate::runner::socket::{behind, command_spec, first_word, other_words, reply_of, CommandView};
use crate::text::{
    cat, chomp_cr, find_from, has_prefix, join, join_spec, lemma_find_is, lemma_trim_commutes,
    lemma_trim_drops_leading, lemma_trim_end, lemma_trim_end_append, lemma_trim_end_white, lemma_trim_of_trim_end,
    lines_spec, same, strip_prefix, trim, trim_end_spec, trim_spec, trim_start_spec, views, white,
};

verus! {

/// The base64 text of bytes, as the standard engine of the `base64` crate writes it.
pub uninterp spec fn base64_text(bytes: Seq<u8>) -> Seq<char>;

/// A character of the standard base64 alphabet, or its padding.
pub open spec fn base64_char(c: char) -> bool {
    'A' <= c <= 'Z' || 'a' <= c <= 'z' || '0' <= c <= '9' || c == '+' || c == '/' || c == '='
}

/// Calls `Engine::encode` of `base64::engine::general_purpose::STANDARD`: the text
/// depends on the bytes alone, is made of the standard alphabet and its padding, and is
/// empty for no bytes only.
#[verifier::external_body]
fn base64_encode(bytes: &[u8]) -> (r: String)
    ensures
        r@ == base64_text(bytes@),
        forall|i: int| 0 <= i < r@.len() ==> base64_char(#[trigger] r@[i]),
        r@.len() == 0 <==> bytes@.len() == 0,
{
    base64::engine::general_purpose::STANDARD.encode(bytes)
}

/// The message that completes a step.
pub open spec fn done_text(output: Seq<Seq<char>>) -> Seq<char> {
    if output.len() == 0 {
        "done"@
    } else {
        "done "@ + join_spec(output, " "@)
    }
}

/// The message that completes a step with an output value.
pub fn done_message(output: &Vec<String>) -> (s: String)
    ensures
        s@ == done_text(views(output@)),
{
    if output.len() == 0 {
        "done".to_owned()
    } else {
        cat("done ", join(output, " ").as_str())
    }
}

/// The message that reports a metric.
pub open spec fn metric_text(name: Seq<char>, value: Seq<char>) -> Seq<char> {
    "metric "@ + name + " "@ + value
}

/// The message that reports a metric.
pub fn metric_message(name: &str, value: &str) -> (s: String)
    ensures
        s@ == metric_text(name@, value@),
{
    let mut s = cat("metric ", name);
    s.append(" ");
    s.append(value);
    s
}

/// The content of an artifact that is given as words; none where it is to be read from
/// the standard input.
pub fn artifact_content(words: &Vec<String>) -> (r: Option<Vec<u8>>)
    ensures
        match r {
            Some(bytes) => views(words@).len() > 0 && bytes@ == vstd::utf8::encode_utf8(
                join_spec(views(words@), " "@),
            ),
            None => views(words@).len() == 0,
        },
{
    if words.len() == 0 {
        None
    } else {
        Some(join(words, " ").as_str().as_bytes_vec())
    }
}

/// The message that writes artifact content.
pub open spec fn artifact_text(name: Seq<char>, data: Seq<char>) -> Seq<char> {
    "artifact "@ + name + " "@ + data
}

/// The message that writes artifact content, in base64.
pub fn artifact_message(name: &str, bytes: &[u8]) -> (s: String)
    ensures
        s@ == artifact_text(name@, base64_text(bytes@)),
        forall|i: int| 0 <= i < base64_text(bytes@).len() ==> base64_char(#[trigger] base64_text(bytes@)[i]),
{
    let data = base64_encode(bytes);
    encoded_message(name, data.as_str())
}

/// The message that writes artifact content that is encoded already.
pub fn encoded_message(name: &str, data: &str) -> (s: String)
    ensures
        s@ == artifact_text(name@, data@),
{
    let mut s = cat("artifact ", name);
    s.append(" ");
    s.append(data);
    s
}

/// The message that closes an artifact stream.
pub fn artifact_done_message(name: &str) -> (s: String)
    ensures
        s@ == "artifact-done "@ + name@,
{
    cat("artifact-done ", name)
}

/// The runner's answer says that it took a command.
pub open spec fn accepted(response: Seq<char>) -> bool {
    trim_spec(response) == "ok"@
}

/// What the runner's answer says: it is `ok`, or the complaint to show.
pub fn check_response(response: &str) -> (r: Result<(), String>)
    ensures
        ({
            let text = trim_spec(response@);
            match r {
                Ok(_) => text == "ok"@,
                Err(e) => text != "ok"@ && e@ == (if has_prefix(text, "error:"@) {
                    "ox-runner rejected command:"@ + behind(text, "error:"@)
                } else {
                    "unexpected response from ox-runner: "@ + text
                }),
            }
        }),
        r is Ok <==> accepted(response@),
{
    let text = trim(response);
    proof {
        reveal_strlit("ok");
        reveal_strlit("error:");
    }
    if let Some(err) = strip_prefix(text.as_str(), "error:") {
        return Err(cat("ox-runner rejected command:", err.as_str()));
    }
    if !same(text.as_str(), "ok") {
        return Err(cat("unexpected response from ox-runner: ", text.as_str()));
    }
    Ok(())
}

proof fn lemma_starts(s: Seq<char>, p: Seq<char>, rest: Seq<char>)
    requires
        s == p + rest,
    ensures
        has_prefix(s, p),
        behind(s, p) == rest,
{
    assert(s.subrange(0, p.len() as int) =~= p);
    assert(s.skip(p.len() as int) =~= rest);
}

proof fn lemma_no_prefix(s: Seq<char>, p: Seq<char>, i: int)
    requires
        0 <= i < p.len(),
        i < s.len(),
        s[i] != p[i],
    ensures
        !has_prefix(s, p),
{
    if has_prefix(s, p) {
        assert(s.subrange(0, p.len() as int)[i] == s[i]);
    }
}

/// What the runner reads of a message that is sent to it with a line end behind it: the
/// command on its line. A message of several lines is none.
pub open spec fn heard(message: Seq<char>) -> Option<CommandView> {
    let all = lines_spec(message + "\n"@);
    if all.len() == 1 {
        command_spec(trim_spec(all[0]))
    } else {
        None
    }
}

proof fn lemma_heard(m: Seq<char>)
    requires
        !m.contains('\n'),
    ensures
        heard(m) == command_spec(trim_spec(m)),
{
    reveal_strlit("\n");
    let s = m + "\n"@;
    let n = m.len() as int;
    assert forall|i: int| 0 <= i < n implies s[i] != '\n' by {
        assert(s[i] == m[i]);
        assert(m.contains(m[i]));
    }
    assert(s[n] == '\n');
    lemma_find_is(s, '\n', 0, n);
    assert(s.take(n) =~= m);
    assert(s.skip(n + 1) =~= seq![]);
    assert(lines_spec(s.skip(n + 1)) =~= seq![]);
    assert(lines_spec(s) =~= seq![chomp_cr(m)]);
    if n > 0 && m.last() == '\r' {
        lemma_trim_commutes(m);
        lemma_trim_commutes(m.drop_last());
        assert(trim_end_spec(m) == trim_end_spec(m.drop_last()));
    }
}

/// What a step says it is done with, on one line, is what the runner reads, up to white
/// space around it.
pub proof fn done_reaches_the_runner(output: Seq<Seq<char>>)
    requires
        !join_spec(output, " "@).contains('\n'),
    ensures
        heard(done_text(output)) == Some(CommandView::Done { output: trim_spec(join_spec(output, " "@)) }),
{
    let j = join_spec(output, " "@);
    let m = done_text(output);
    assert(!m.contains('\n')) by {
        reveal_strlit("done");
        reveal_strlit("done ");
        if m.contains('\n') {
            let i = m.index_of('\n');
            if i >= 5 {
                assert(j[i - 5] == '\n');
            }
        }
    }
    lemma_heard(m);
    lemma_done(output);
}

proof fn lemma_done(output: Seq<Seq<char>>)
    ensures
        command_spec(trim_spec(done_text(output))) == Some(
            CommandView::Done { output: trim_spec(join_spec(output, " "@)) },
        ),
{
    reveal_strlit("done");
    reveal_strlit("done ");
    reveal_strlit(" ");
    let j = join_spec(output, " "@);
    let m = done_text(output);
    assert(m[0] == 'd');
    assert(trim_start_spec(m) == m);
    if output.len() == 0 {
        assert(j =~= seq![]);
        assert(m.last() == 'e');
        assert(trim_spec(m) == m);
        lemma_starts(m, "done"@, seq![]);
    } else {
        let sp = seq![' '];
        assert("done "@ =~= "done"@ + sp);
        assert(m =~= "done"@ + (sp + j));
        lemma_trim_end_append(sp, j);
        lemma_trim_end_append("done"@, sp + j);
        let t = trim_end_spec(j);
        lemma_trim_end(j);
        lemma_trim_of_trim_end(j);
        if t.len() > 0 {
            assert(trim_spec(m) =~= "done"@ + (sp + t));
            lemma_starts(trim_spec(m), "done"@, sp + t);
            lemma_trim_drops_leading(' ', t);
        } else {
            lemma_trim_end_white(' ');
            assert(trim_end_spec(sp) =~= seq![]);
            assert("done"@.last() == 'e');
            assert(trim_spec(m) == "done"@);
            lemma_starts("done"@, "done"@, seq![]);
            assert(t =~= seq![]);
            assert(trim_spec(seq![]) =~= seq![]);
        }
    }
}

/// A name and a value that are sent come out as they went in, where they stand on one
/// line, the name has no space in it, neither starts or ends with white space, and not
/// both are empty.
pub proof fn metrics_reach_the_runner(name: Seq<char>, value: Seq<char>)
    requires
        !name.contains(' '),
        trim_spec(name) == name,
        trim_spec(value) == value,
        name.len() > 0 || value.len() > 0,
        !name.contains('\n'),
        !value.contains('\n'),
    ensures
        heard(metric_text(name, value)) == Some(CommandView::Metric { name, value }),
{
    reveal_strlit("metric ");
    reveal_strlit("done");
    reveal_strlit("artifact ");
    reveal_strlit("artifact-done ");
    let m = metric_text(name, value);
    lemma_sent("metric "@, name, value);
    lemma_one_line("metric "@, name, value);
    lemma_heard(m);
    let t = trim_spec(m);
    assert(t[0] == 'm');
    lemma_no_prefix(t, "done"@, 0);
    lemma_no_prefix(t, "artifact-done "@, 0);
    lemma_no_prefix(t, "artifact "@, 0);
}

/// Artifact content that is sent comes out as it went in, where the name stands on one
/// line, has no space in it, does not start or end with white space, and not both are
/// empty.
pub proof fn artifacts_reach_the_runner(name: Seq<char>, data: Seq<char>)
    requires
        !name.contains(' '),
        trim_spec(name) == name,
        name.len() > 0 || data.len() > 0,
        !name.contains('\n'),
        forall|i: int| 0 <= i < data.len() ==> base64_char(#[trigger] data[i]),
    ensures
        heard(artifact_text(name, data)) == Some(CommandView::Artifact { name, data }),
{
    reveal_strlit("done");
    reveal_strlit("artifact ");
    reveal_strlit("artifact-done ");
    let m = artifact_text(name, data);
    if data.len() > 0 {
        assert(base64_char(data[0]));
        assert(base64_char(data[data.len() - 1]));
        assert(!white(data[0]));
        assert(!white(data.last()));
    }
    assert(trim_spec(data) == data);
    lemma_sent("artifact "@, name, data);
    assert(!data.contains('\n')) by {
        if data.contains('\n') {
            assert(base64_char(data[data.index_of('\n')]));
        }
    }
    lemma_one_line("artifact "@, name, data);
    lemma_heard(m);
    let t = trim_spec(m);
    assert(t[0] == 'a');
    assert(t[8] == ' ');
    lemma_no_prefix(t, "done"@, 0);
    lemma_no_prefix(t, "artifact-done "@, 8);
}

proof fn lemma_one_line(word: Seq<char>, name: Seq<char>, value: Seq<char>)
    requires
        !word.contains('\n'),
        !name.contains('\n'),
        !value.contains('\n'),
    ensures
        !(word + name + " "@ + value).contains('\n'),
{
    reveal_strlit(" ");
    let m = word + name + " "@ + value;
    if m.contains('\n') {
        let i = m.index_of('\n');
        let (a, b) = (word.len() as int, (word + name).len() as int);
        if i < a {
            assert(word[i] == '\n');
        } else if i < b {
            assert(name[i - a] == '\n');
        } else if i > b {
            assert(value[i - b - 1] == '\n');
        }
    }
}

/// A command word, a name and a value behind it survive the trimming of the line, and
/// the name and the value are told apart.
proof fn lemma_sent(word: Seq<char>, name: Seq<char>, value: Seq<char>)
    requires
        word.len() > 1,
        !white(word[0]),
        word.last() == ' ',
        !name.contains(' '),
        trim_spec(name) == name,
        trim_spec(value) == value,
        name.len() > 0 || value.len() > 0,
    ensures
        ({
            let t = trim_spec(word + name + " "@ + value);
            &&& has_prefix(t, word)
            &&& first_word(behind(t, word)) == name
            &&& other_words(behind(t, word)) == value
            &&& t.len() >= word.len()
            &&& forall|i: int| 0 <= i < word.len() ==> t[i] == word[i]
        }),
{
    reveal_strlit(" ");
    let m = word + name + " "@ + value;
    assert(m[0] == word[0]);
    if value.len() > 0 {
        lemma_trimmed_end(value);
        assert(m.last() == value.last());
        assert(trim_spec(m) == m);
        let rest = name + " "@ + value;
        assert(m =~= word + rest);
        lemma_starts(m, word, rest);
        lemma_pair(name, value);
    } else {
        lemma_trimmed_end(name);
        assert(m.last() == ' ');
        assert(m.drop_last() =~= word + name);
        assert((word + name).last() == name.last());
        assert(trim_end_spec(word + name) == word + name);
        assert(trim_start_spec(m) == m);
        assert(white(m.last()));
        assert(trim_end_spec(m) == trim_end_spec(m.drop_last()));
        assert(trim_spec(m) == word + name);
        lemma_starts(word + name, word, name);
        assert(find_from(name, ' ', 0) == name.len()) by {
            assert forall|i: int| 0 <= i < name.len() implies name[i] != ' ' by {
                assert(name.contains(name[i]));
            }
            lemma_find_is(name, ' ', 0, name.len() as int);
        }
        assert(value =~= seq![]);
    }
}

/// The close of an artifact reaches the runner with the artifact's name, where that
/// stands on one line and does not start or end with white space.
pub proof fn closed_artifacts_reach_the_runner(name: Seq<char>)
    requires
        trim_spec(name) == name,
        name.len() > 0,
        !name.contains('\n'),
    ensures
        heard("artifact-done "@ + name) == Some(CommandView::ArtifactDone { name }),
{
    reveal_strlit("done");
    reveal_strlit("artifact-done ");
    let m = "artifact-done "@ + name;
    assert(m[0] == 'a');
    lemma_trimmed_end(name);
    assert(m.last() == name.last());
    assert(trim_spec(m) == m);
    lemma_no_prefix(m, "done"@, 0);
    lemma_starts(m, "artifact-done "@, name);
    assert(!m.contains('\n')) by {
        if m.contains('\n') {
            let i = m.index_of('\n');
            if i >= 14 {
                assert(name[i - 14] == '\n');
            }
        }
    }
    lemma_heard(m);
}

proof fn lemma_trimmed_end(s: Seq<char>)
    requires
        trim_spec(s) == s,
        s.len() > 0,
    ensures
        !white(s.last()),
{
    lemma_trim_end(trim_start_spec(s));
}

proof fn lemma_pair(name: Seq<char>, value: Seq<char>)
    requires
        !name.contains(' '),
        trim_spec(name) == name,
        trim_spec(value) == value,
    ensures
        first_word(name + " "@ + value) == name,
        other_words(name + " "@ + value) == value,
{
    reveal_strlit(" ");
    let s = name + " "@ + value;
    let n = name.len() as int;
    assert forall|i: int| 0 <= i < n implies s[i] != ' ' by {
        assert(s[i] == name[i]);
        assert(name.contains(name[i]));
    }
    assert(s[n] == ' ');
    lemma_find_is(s, ' ', 0, n);
    assert(s.take(n) =~= name);
    assert(s.skip(n + 1) =~= value);
}

/// A step learns that its message was taken exactly where the runner read a command in it.
pub proof fn answers_tell_whether_a_command_was_taken(line: Seq<char>)
    requires
        trim_spec(line).len() > 0,
    ensures
        reply_of(line) is Some,
        accepted(reply_of(line)->0) <==> command_spec(trim_spec(line)) is Some,
{
    reveal_strlit("ok\n");
    reveal_strlit("ok");
    reveal_strlit("error: unknown command: ");
    let ok = "ok\n"@;
    assert(ok[0] == 'o');
    assert(trim_start_spec(ok) == ok);
    assert(ok.drop_last() =~= "ok"@);
    assert("ok"@.last() == 'k');
    assert(trim_end_spec("ok"@) == "ok"@);
    assert(trim_end_spec(ok) == trim_end_spec(ok.drop_last()));
    assert(trim_spec(ok) == "ok"@);
    let text = trim_spec(line);
    let bad = "error: unknown command: "@ + text + "\n"@;
    assert(bad[0] == 'e');
    assert(trim_start_spec(bad) == bad);
    if trim_spec(bad) == "ok"@ {
        lemma_trim_end(bad);
        lemma_trim_end_start(bad);
        assert("ok"@[0] == 'o');
    }
}

proof fn lemma_trim_end_start(s: Seq<char>)
    ensures
        trim_end_spec(s).len() > 0 ==> trim_end_spec(s)[0] == s[0],
    decreases s.len(),
{
    if s.len() > 0 && white(s.last()) {
        lemma_trim_end_start(s.drop_last());
    }
}

} // verus!
