//! `{name}` references in templates: reading them, resolving them, and listing the
//! secrets they need.

use vstd::prelude::*;

use crate::strmap::StringMap;
use crate::text::{
    cat, chars_of, dedup_spec, find_char, find_from, has_prefix, lemma_add_all_new, lemma_dedup, lemma_find_from,
    lemma_find_is, push_all_new, strip_prefix, text_range, views,
};

verus! {

/// A piece of a template: text that stands for itself, the name of a reference, or the
/// name of one that the template ends in before it is closed.
pub enum Piece {
    Text(String),
    Ref(String),
    Open(String),
}

/// What a piece of a template is.
pub enum PieceView {
    Text(Seq<char>),
    Ref(Seq<char>),
    Open(Seq<char>),
}

impl View for Piece {
    type V = PieceView;

    open spec fn view(&self) -> PieceView {
        match self {
            Piece::Text(s) => PieceView::Text(s@),
            Piece::Ref(s) => PieceView::Ref(s@),
            Piece::Open(s) => PieceView::Open(s@),
        }
    }
}

/// The pieces of a template. A reference starts behind `{` and runs to the next
/// `}`; where there is none, it is left open and runs to the end of the template.
pub open spec fn pieces(t: Seq<char>) -> Seq<PieceView>
    decreases t.len(),
{
    if t.len() == 0 {
        seq![]
    } else if t[0] == '{' {
        let end = find_from(t, '}', 1);
        proof {
            lemma_find_from(t, '}', 1);
        }
        if end < t.len() {
            seq![PieceView::Ref(t.subrange(1, end))] + pieces(t.skip(end + 1))
        } else {
            seq![PieceView::Open(t.skip(1))]
        }
    } else {
        let end = find_from(t, '{', 1);
        proof {
            lemma_find_from(t, '{', 1);
        }
        seq![PieceView::Text(t.take(end))] + pieces(t.skip(end))
    }
}

/// The views of a list of pieces.
pub open spec fn piece_views(v: Seq<Piece>) -> Seq<PieceView> {
    v.map_values(|p: Piece| p@)
}

/// Reads the pieces of a template.
pub fn read_pieces(template: &str) -> (r: Vec<Piece>)
    ensures
        piece_views(r@) == pieces(template@),
{
    let v = chars_of(template);
    let mut out: Vec<Piece> = Vec::new();
    let mut at: usize = 0;
    assert(v@.skip(0) =~= v@);
    assert(piece_views(out@) + pieces(v@.skip(0)) =~= pieces(v@));
    while at < v.len()
        invariant
            v@ == template@,
            at <= v@.len(),
            piece_views(out@) + pieces(v@.skip(at as int)) == pieces(v@),
        decreases v@.len() - at,
    {
        let ghost rest = v@.skip(at as int);
        let ghost before = out@;
        let reference = v[at] == '{';
        let end = find_char(&v, if reference { '}' } else { '{' }, at + 1);
        proof {
            lemma_find_skip_one(v@, '}', at as int);
            lemma_find_skip_one(v@, '{', at as int);
        }
        let next: usize = if reference && end < v.len() { end + 1 } else { end };
        if reference {
            let name = text_range(&v, at + 1, end);
            if end < v.len() {
                assert(name@ =~= rest.subrange(1, end - at));
                out.push(Piece::Ref(name));
            } else {
                assert(name@ =~= rest.skip(1));
                out.push(Piece::Open(name));
                assert(v@.skip(next as int).len() == 0);
                assert(pieces(v@.skip(next as int)) =~= seq![]);
            }
        } else {
            let run = text_range(&v, at, end);
            assert(run@ =~= rest.take(end - at));
            out.push(Piece::Text(run));
        }
        assert(piece_views(out@) =~= piece_views(before).push(out@.last()@));
        assert(rest.skip(next - at) =~= v@.skip(next as int));
        assert(piece_views(out@) + pieces(v@.skip(next as int)) =~= piece_views(before) + (seq![out@.last()@] + pieces(
            v@.skip(next as int),
        )));
        at = next;
    }
    assert(v@.skip(at as int).len() == 0);
    assert(piece_views(out@) + Seq::<PieceView>::empty() =~= piece_views(out@));
    out
}

proof fn lemma_find_skip_one(v: Seq<char>, c: char, at: int)
    requires
        0 <= at < v.len(),
    ensures
        find_from(v, c, at + 1) == find_from(v.skip(at), c, 1) + at,
{
    let a = find_from(v, c, at + 1);
    lemma_find_from(v, c, at + 1);
    lemma_find_is(v.skip(at), c, 1, a - at);
}

#[derive(Debug)]
pub enum InterpolationError {
    MissingField(String),
    MissingSecret(String),
}

/// What an interpolation error says.
pub enum InterpolationErrorView {
    MissingField(Seq<char>),
    MissingSecret(Seq<char>),
}

impl View for InterpolationError {
    type V = InterpolationErrorView;

    open spec fn view(&self) -> InterpolationErrorView {
        match self {
            InterpolationError::MissingField(s) => InterpolationErrorView::MissingField(s@),
            InterpolationError::MissingSecret(s) => InterpolationErrorView::MissingSecret(s@),
        }
    }
}

impl InterpolationError {
    /// The error in words.
    pub fn message(&self) -> (s: String)
        ensures
            s@ == (match self@ {
                InterpolationErrorView::MissingField(n) => "missing field: "@ + n,
                InterpolationErrorView::MissingSecret(n) => "missing secret: "@ + n,
            }),
    {
        match self {
            InterpolationError::MissingField(n) => cat("missing field: ", n.as_str()),
            InterpolationError::MissingSecret(n) => cat("missing secret: ", n.as_str()),
        }
    }
}

/// The name of the secret that a reference asks for.
pub open spec fn secret_name(name: Seq<char>) -> Option<Seq<char>> {
    if has_prefix(name, "secret."@) {
        Some(name.skip("secret."@.len() as int))
    } else {
        None
    }
}

/// The name that a piece refers to, closed or not; the text of any other piece.
pub open spec fn reference(p: PieceView) -> Result<Seq<char>, Seq<char>> {
    match p {
        PieceView::Text(s) => Err(s),
        PieceView::Ref(name) => Ok(name),
        PieceView::Open(name) => Ok(name),
    }
}

/// What a piece stands for, given the values and the secrets.
pub open spec fn resolve_piece(
    p: PieceView,
    values: Map<Seq<char>, Seq<char>>,
    secrets: Map<Seq<char>, Seq<char>>,
) -> Result<Seq<char>, InterpolationErrorView> {
    match reference(p) {
        Err(text) => Ok(text),
        Ok(name) => match secret_name(name) {
            Some(secret) => if secrets.dom().contains(secret) {
                Ok(secrets[secret])
            } else {
                Err(InterpolationErrorView::MissingSecret(secret))
            },
            None => if values.dom().contains(name) {
                Ok(values[name])
            } else {
                Err(InterpolationErrorView::MissingField(name))
            },
        },
    }
}

/// The pieces resolved and put together; the error of the first that has no value.
pub open spec fn resolve_pieces(
    ps: Seq<PieceView>,
    values: Map<Seq<char>, Seq<char>>,
    secrets: Map<Seq<char>, Seq<char>>,
) -> Result<Seq<char>, InterpolationErrorView>
    decreases ps.len(),
{
    if ps.len() == 0 {
        Ok(seq![])
    } else {
        match resolve_pieces(ps.drop_last(), values, secrets) {
            Err(e) => Err(e),
            Ok(head) => match resolve_piece(ps.last(), values, secrets) {
                Err(e) => Err(e),
                Ok(s) => Ok(head + s),
            },
        }
    }
}

/// A template with its references resolved.
pub open spec fn interpolate_spec(
    template: Seq<char>,
    values: Map<Seq<char>, Seq<char>>,
    secrets: Map<Seq<char>, Seq<char>>,
) -> Result<Seq<char>, InterpolationErrorView> {
    resolve_pieces(pieces(template), values, secrets)
}

/// The secrets that pieces refer to, in order.
pub open spec fn secret_refs(ps: Seq<PieceView>) -> Seq<Seq<char>>
    decreases ps.len(),
{
    if ps.len() == 0 {
        seq![]
    } else {
        let head = secret_refs(ps.drop_last());
        match reference(ps.last()) {
            Ok(name) => match secret_name(name) {
                Some(secret) => head.push(secret),
                None => head,
            },
            Err(_) => head,
        }
    }
}

/// The secrets that templates refer to, template by template.
pub open spec fn all_secret_refs(templates: Seq<Seq<char>>) -> Seq<Seq<char>>
    decreases templates.len(),
{
    if templates.len() == 0 {
        seq![]
    } else {
        all_secret_refs(templates.drop_last()) + secret_refs(pieces(templates.last()))
    }
}

/// Context for resolving `{name}` field references and `{secret.name}` secret references.
#[derive(Debug)]
pub struct InterpolationContext {
    values: StringMap<String>,
    secrets: StringMap<String>,
}

impl InterpolationContext {
    /// The field values.
    pub closed spec fn value_map(&self) -> Map<Seq<char>, Seq<char>> {
        self.values.texts()
    }

    /// The secrets.
    pub closed spec fn secret_map(&self) -> Map<Seq<char>, Seq<char>> {
        self.secrets.texts()
    }

    /// A context with field values and secrets.
    pub fn new(values: StringMap<String>, secrets: StringMap<String>) -> (c: Self)
        ensures
            c.value_map() == values.texts(),
            c.secret_map() == secrets.texts(),
    {
        InterpolationContext { values, secrets }
    }

    /// Create a context with only field values (no secrets).
    pub fn fields_only(values: StringMap<String>) -> (c: Self)
        ensures
            c.value_map() == values.texts(),
            c.secret_map() == Map::<Seq<char>, Seq<char>>::empty(),
    {
        let c = InterpolationContext { values, secrets: StringMap::new() };
        assert(c.secrets.texts() =~= Map::<Seq<char>, Seq<char>>::empty());
        c
    }

    /// Interpolate a template string. Resolves `{name}` from values and `{secret.name}` from secrets.
    pub fn interpolate(&self, template: &str) -> (r: Result<String, InterpolationError>)
        ensures
            match r {
                Ok(s) => interpolate_spec(template@, self.value_map(), self.secret_map()) == Ok::<_, InterpolationErrorView>(s@),
                Err(e) => interpolate_spec(template@, self.value_map(), self.secret_map()) == Err::<Seq<char>, _>(e@),
            },
    {
        let ps = read_pieces(template);
        let mut out = String::new();
        let mut i: usize = 0;
        let ghost all = pieces(template@);
        let ghost vm = self.value_map();
        let ghost sm = self.secret_map();
        assert(all.take(0) =~= seq![]);
        while i < ps.len()
            invariant
                0 <= i <= ps@.len(),
                piece_views(ps@) == all,
                all == pieces(template@),
                vm == self.value_map(),
                sm == self.secret_map(),
                resolve_pieces(all.take(i as int), vm, sm) == Ok::<_, InterpolationErrorView>(out@),
            decreases ps@.len() - i,
        {
            let ghost next = all.take(i + 1);
            assert(next.drop_last() =~= all.take(i as int));
            assert(next.last() == ps@[i as int]@);
            match &ps[i] {
                Piece::Text(run) => { out.append(run.as_str()); },
                Piece::Ref(name) | Piece::Open(name) => {
                    match strip_prefix(name.as_str(), "secret.") {
                        Some(secret) => match self.secrets.get(secret.as_str()) {
                            Some(value) => { out.append(value.as_str()); },
                            None => {
                                proof {
                                    lemma_error_stays(all, vm, sm, i + 1);
                                }
                                return Err(InterpolationError::MissingSecret(secret));
                            },
                        },
                        None => match self.values.get(name.as_str()) {
                            Some(value) => { out.append(value.as_str()); },
                            None => {
                                proof {
                                    lemma_error_stays(all, vm, sm, i + 1);
                                }
                                return Err(InterpolationError::MissingField(name.clone()));
                            },
                        },
                    }
                },
            }
            i += 1;
        }
        assert(all.take(i as int) =~= all);
        Ok(out)
    }

    /// Check if a field has a value (for `optional` blocks).
    pub fn has_field(&self, name: &str) -> (r: bool)
        ensures
            r == self.value_map().dom().contains(name@),
    {
        self.values.contains_key(name)
    }

    /// Collect all `{secret.NAME}` references from a template without resolving them.
    pub fn collect_secret_refs(template: &str) -> (r: Vec<String>)
        ensures
            views(r@) == secret_refs(pieces(template@)),
    {
        let ps = read_pieces(template);
        let mut refs: Vec<String> = Vec::new();
        let mut i: usize = 0;
        let ghost all = pieces(template@);
        assert(all.take(0) =~= seq![]);
        assert(views(refs@) =~= seq![]);
        while i < ps.len()
            invariant
                0 <= i <= ps@.len(),
                piece_views(ps@) == all,
                views(refs@) == secret_refs(all.take(i as int)),
            decreases ps@.len() - i,
        {
            let ghost next = all.take(i + 1);
            let ghost before = refs@;
            assert(next.drop_last() =~= all.take(i as int));
            assert(next.last() == ps@[i as int]@);
            match &ps[i] {
                Piece::Text(_) => {},
                Piece::Ref(name) | Piece::Open(name) => {
                    if let Some(secret) = strip_prefix(name.as_str(), "secret.") {
                        refs.push(secret);
                        assert(views(refs@) =~= views(before).push(secret@));
                    }
                },
            }
            i += 1;
        }
        assert(all.take(i as int) =~= all);
        refs
    }

    /// Collect all secret refs from multiple templates (deduped).
    pub fn collect_all_secret_refs(templates: &[&str]) -> (r: Vec<String>)
        ensures
            views(r@) == dedup_spec(all_secret_refs(templates@.map_values(|t: &str| t@))),
    {
        let mut refs: Vec<String> = Vec::new();
        let mut i: usize = 0;
        let ghost all = templates@.map_values(|t: &str| t@);
        assert(all.take(0) =~= seq![]);
        assert(views(refs@) =~= dedup_spec(seq![]));
        while i < templates.len()
            invariant
                0 <= i <= templates@.len(),
                all == templates@.map_values(|t: &str| t@),
                views(refs@) == dedup_spec(all_secret_refs(all.take(i as int))),
            decreases templates@.len() - i,
        {
            let more = Self::collect_secret_refs(templates[i]);
            push_all_new(&mut refs, &more);
            let ghost next = all.take(i + 1);
            assert(next.drop_last() =~= all.take(i as int));
            assert(next.last() == templates@[i as int]@);
            proof {
                lemma_add_all_new(all_secret_refs(all.take(i as int)), views(more@));
            }
            i += 1;
        }
        assert(all.take(i as int) =~= all);
        refs
    }
}

proof fn lemma_error_stays(
    ps: Seq<PieceView>,
    values: Map<Seq<char>, Seq<char>>,
    secrets: Map<Seq<char>, Seq<char>>,
    k: int,
)
    requires
        0 <= k <= ps.len(),
        resolve_pieces(ps.take(k), values, secrets) is Err,
    ensures
        resolve_pieces(ps, values, secrets) == resolve_pieces(ps.take(k), values, secrets),
    decreases ps.len(),
{
    if k == ps.len() {
        assert(ps.take(k) =~= ps);
    } else {
        assert(ps.drop_last().take(k) =~= ps.take(k));
        lemma_error_stays(ps.drop_last(), values, secrets, k);
    }
}

/// A template without `{` stands for itself, whatever the values and the secrets.
pub proof fn template_without_references_is_unchanged(
    template: Seq<char>,
    values: Map<Seq<char>, Seq<char>>,
    secrets: Map<Seq<char>, Seq<char>>,
)
    requires
        !template.contains('{'),
    ensures
        interpolate_spec(template, values, secrets) == Ok::<_, InterpolationErrorView>(template),
{
    lemma_plain_pieces(template);
    let ps = pieces(template);
    if template.len() > 0 {
        assert(ps.drop_last() =~= seq![]);
        assert(resolve_pieces(ps.drop_last(), values, secrets)->Ok_0 + template =~= template);
    } else {
        assert(template =~= seq![]);
    }
}

/// A template without references is one piece of text.
pub proof fn lemma_plain_pieces(t: Seq<char>)
    requires
        !t.contains('{'),
    ensures
        pieces(t) == (if t.len() == 0 {
            seq![]
        } else {
            seq![PieceView::Text(t)]
        }),
{
    if t.len() > 0 {
        assert(t[0] != '{') by {
            assert(t.contains(t[0]));
        }
        let end = find_from(t, '{', 1);
        lemma_find_from(t, '{', 1);
        if end < t.len() {
            assert(t.contains(t[end]));
        }
        assert(t.take(end) =~= t);
        assert(t.skip(end).len() == 0);
        assert(pieces(t.skip(end)) =~= seq![]);
        assert(pieces(t) =~= seq![PieceView::Text(t)]);
    }
}

/// Every reference of a template is closed, so that what follows the template is read
/// as if it stood alone.
pub open spec fn ends_outside(t: Seq<char>) -> bool
    decreases t.len(),
{
    if t.len() == 0 {
        true
    } else if t[0] == '{' {
        let end = find_from(t, '}', 1);
        proof {
            lemma_find_from(t, '}', 1);
        }
        end < t.len() && ends_outside(t.skip(end + 1))
    } else {
        ends_outside(t.skip(1))
    }
}

/// Two results put together; the error of the first that has one.
pub open spec fn joined(
    a: Result<Seq<char>, InterpolationErrorView>,
    b: Result<Seq<char>, InterpolationErrorView>,
) -> Result<Seq<char>, InterpolationErrorView> {
    match a {
        Err(e) => Err(e),
        Ok(x) => match b {
            Err(e) => Err(e),
            Ok(y) => Ok(x + y),
        },
    }
}

/// Interpolation goes part by part: where the first part closes its references, the
/// whole gives the error of the first part, or that of the second, or both results one
/// behind the other.
pub proof fn interpolation_goes_part_by_part(
    a: Seq<char>,
    b: Seq<char>,
    values: Map<Seq<char>, Seq<char>>,
    secrets: Map<Seq<char>, Seq<char>>,
)
    requires
        ends_outside(a),
    ensures
        interpolate_spec(a + b, values, secrets) == joined(
            interpolate_spec(a, values, secrets),
            interpolate_spec(b, values, secrets),
        ),
    decreases a.len(),
{
    let t = a + b;
    let of_b = interpolate_spec(b, values, secrets);
    if a.len() == 0 {
        assert(t =~= b);
        assert(pieces(a) =~= seq![]);
        lemma_joined(Ok(Seq::empty()), of_b, of_b);
    } else {
        assert(t[0] == a[0]);
        let end = find_from(a, '}', 1);
        lemma_find_from(a, '}', 1);
        let k = if a[0] == '{' { end + 1 } else { 1 };
        let rest = a.skip(k);
        assert(t.skip(k) =~= rest + b);
        interpolation_goes_part_by_part(rest, b, values, secrets);
        let of_rest = interpolate_spec(rest, values, secrets);
        if a[0] == '{' {
            assert forall|i: int| 1 <= i < end implies t[i] != '}' by {
                assert(t[i] == a[i]);
            }
            assert(t[end] == a[end]);
            lemma_find_is(t, '}', 1, end);
            assert(t.subrange(1, end) =~= a.subrange(1, end));
            let p = PieceView::Ref(a.subrange(1, end));
            lemma_resolve_front(p, pieces(rest), values, secrets);
            lemma_resolve_front(p, pieces(rest + b), values, secrets);
            lemma_joined(resolve_piece(p, values, secrets), of_rest, of_b);
        } else {
            lemma_text_front(a, values, secrets);
            lemma_text_front(t, values, secrets);
            lemma_joined(Ok(seq![a[0]]), of_rest, of_b);
        }
    }
}

/// Putting results together is associative, and an empty text adds nothing.
proof fn lemma_joined(
    a: Result<Seq<char>, InterpolationErrorView>,
    b: Result<Seq<char>, InterpolationErrorView>,
    c: Result<Seq<char>, InterpolationErrorView>,
)
    ensures
        joined(joined(a, b), c) == joined(a, joined(b, c)),
        joined(Ok(Seq::empty()), c) == c,
        joined(c, Ok(Seq::empty())) == c,
{
    if let Ok(z) = c {
        assert(Seq::empty() + z =~= z);
        assert(z + Seq::empty() =~= z);
        if let (Ok(x), Ok(y)) = (a, b) {
            assert((x + y) + z =~= x + (y + z));
        }
    }
}

/// The first piece resolves first.
proof fn lemma_resolve_front(
    p: PieceView,
    ps: Seq<PieceView>,
    values: Map<Seq<char>, Seq<char>>,
    secrets: Map<Seq<char>, Seq<char>>,
)
    ensures
        resolve_pieces(seq![p] + ps, values, secrets) == joined(
            resolve_piece(p, values, secrets),
            resolve_pieces(ps, values, secrets),
        ),
    decreases ps.len(),
{
    let all = seq![p] + ps;
    let first = resolve_piece(p, values, secrets);
    if ps.len() == 0 {
        assert(all.drop_last() =~= seq![]);
        assert(all.last() == p);
        assert(resolve_pieces(all.drop_last(), values, secrets) == Ok::<_, InterpolationErrorView>(Seq::<char>::empty()));
        lemma_joined(first, first, first);
    } else {
        assert(all.drop_last() =~= seq![p] + ps.drop_last());
        assert(all.last() == ps.last());
        lemma_resolve_front(p, ps.drop_last(), values, secrets);
        lemma_joined(
            first,
            resolve_pieces(ps.drop_last(), values, secrets),
            resolve_piece(ps.last(), values, secrets),
        );
    }
}

/// A character outside references stands in front of what the rest gives.
proof fn lemma_text_front(t: Seq<char>, values: Map<Seq<char>, Seq<char>>, secrets: Map<Seq<char>, Seq<char>>)
    requires
        t.len() > 0,
        t[0] != '{',
    ensures
        interpolate_spec(t, values, secrets) == joined(
            Ok(seq![t[0]]),
            interpolate_spec(t.skip(1), values, secrets),
        ),
{
    let end = find_from(t, '{', 1);
    lemma_find_from(t, '{', 1);
    let run = PieceView::Text(t.take(end));
    let behind = pieces(t.skip(end));
    lemma_resolve_front(run, behind, values, secrets);
    let rest = t.skip(1);
    if end == 1 {
        assert(t.take(1) =~= seq![t[0]]);
    } else {
        assert forall|i: int| 1 <= i < end - 1 implies rest[i] != '{' by {
            assert(rest[i] == t[i + 1]);
        }
        assert(rest[0] == t[1]);
        lemma_find_is(rest, '{', 1, end - 1);
        assert(rest.take(end - 1) =~= t.subrange(1, end));
        assert(rest.skip(end - 1) =~= t.skip(end));
        lemma_resolve_front(PieceView::Text(t.subrange(1, end)), behind, values, secrets);
        assert(t.take(end) =~= seq![t[0]] + t.subrange(1, end));
        lemma_joined(
            Ok(seq![t[0]]),
            Ok(t.subrange(1, end)),
            resolve_pieces(behind, values, secrets),
        );
    }
}

/// A template resolves exactly where each of its references has a value.
pub proof fn interpolation_succeeds_iff_all_references_resolve(
    template: Seq<char>,
    values: Map<Seq<char>, Seq<char>>,
    secrets: Map<Seq<char>, Seq<char>>,
)
    ensures
        interpolate_spec(template, values, secrets) is Ok <==> forall|i: int|
            0 <= i < pieces(template).len() ==> resolve_piece(#[trigger] pieces(template)[i], values, secrets) is Ok,
{
    lemma_resolves_iff(pieces(template), values, secrets);
}

proof fn lemma_resolves_iff(
    ps: Seq<PieceView>,
    values: Map<Seq<char>, Seq<char>>,
    secrets: Map<Seq<char>, Seq<char>>,
)
    ensures
        resolve_pieces(ps, values, secrets) is Ok <==> forall|i: int|
            0 <= i < ps.len() ==> resolve_piece(#[trigger] ps[i], values, secrets) is Ok,
    decreases ps.len(),
{
    if ps.len() > 0 {
        lemma_resolves_iff(ps.drop_last(), values, secrets);
        assert(forall|i: int| 0 <= i < ps.len() - 1 ==> ps.drop_last()[i] == ps[i]);
        assert(ps.last() == ps[ps.len() - 1]);
        if forall|i: int| 0 <= i < ps.drop_last().len() ==> resolve_piece(
            #[trigger] ps.drop_last()[i],
            values,
            secrets,
        ) is Ok {
            assert forall|i: int| 0 <= i < ps.len() - 1 implies resolve_piece(#[trigger] ps[i], values, secrets) is Ok by {
                assert(ps.drop_last()[i] == ps[i]);
            }
        }
    }
}

/// A secret that interpolation misses is one that `collect_secret_refs` lists, so
/// a context that holds every listed secret misses none.
pub proof fn missing_secrets_are_collected(
    template: Seq<char>,
    values: Map<Seq<char>, Seq<char>>,
    secrets: Map<Seq<char>, Seq<char>>,
)
    ensures
        match interpolate_spec(template, values, secrets) {
            Err(InterpolationErrorView::MissingSecret(s)) => secret_refs(pieces(template)).contains(s)
                && !secrets.dom().contains(s),
            _ => true,
        },
{
    lemma_missing_is_listed(pieces(template), values, secrets);
}

proof fn lemma_missing_is_listed(
    ps: Seq<PieceView>,
    values: Map<Seq<char>, Seq<char>>,
    secrets: Map<Seq<char>, Seq<char>>,
)
    ensures
        match resolve_pieces(ps, values, secrets) {
            Err(InterpolationErrorView::MissingSecret(s)) => secret_refs(ps).contains(s) && !secrets.dom().contains(s),
            _ => true,
        },
    decreases ps.len(),
{
    if ps.len() > 0 {
        lemma_missing_is_listed(ps.drop_last(), values, secrets);
        let head = secret_refs(ps.drop_last());
        let all = secret_refs(ps);
        match resolve_pieces(ps, values, secrets) {
            Err(InterpolationErrorView::MissingSecret(s)) => {
                if resolve_pieces(ps.drop_last(), values, secrets) is Err {
                    let i = head.index_of(s);
                    assert(all[i] == s);
                } else {
                    assert(all[all.len() - 1] == s);
                }
            },
            _ => {},
        }
    }
}

/// The secrets of several templates come out once each, and none is lost.
pub proof fn collected_secrets_are_distinct_and_complete(templates: Seq<Seq<char>>, i: int, secret: Seq<char>)
    requires
        0 <= i < templates.len(),
        secret_refs(pieces(templates[i])).contains(secret),
    ensures
        dedup_spec(all_secret_refs(templates)).no_duplicates(),
        dedup_spec(all_secret_refs(templates)).contains(secret),
{
    lemma_dedup(all_secret_refs(templates));
    lemma_listed(templates, i, secret);
}

proof fn lemma_listed(templates: Seq<Seq<char>>, i: int, secret: Seq<char>)
    requires
        0 <= i < templates.len(),
        secret_refs(pieces(templates[i])).contains(secret),
    ensures
        all_secret_refs(templates).contains(secret),
    decreases templates.len(),
{
    let head = all_secret_refs(templates.drop_last());
    let last = secret_refs(pieces(templates.last()));
    let all = all_secret_refs(templates);
    if i == templates.len() - 1 {
        let j = last.index_of(secret);
        assert(all[head.len() + j] == secret);
    } else {
        assert(templates.drop_last()[i] == templates[i]);
        lemma_listed(templates.drop_last(), i, secret);
        let j = head.index_of(secret);
        assert(all[j] == secret);
    }
}

/// A reference in braces, closed or left open at the end, stands for the value of its
/// name, or for the secret behind `secret.`; without one it is the error that names it.
pub proof fn references_stand_for_their_values(
    name: Seq<char>,
    values: Map<Seq<char>, Seq<char>>,
    secrets: Map<Seq<char>, Seq<char>>,
)
    requires
        !name.contains('}'),
    ensures
        interpolate_spec("{"@ + name, values, secrets) == interpolate_spec("{"@ + name + "}"@, values, secrets),
        !has_prefix(name, "secret."@) ==> interpolate_spec("{"@ + name + "}"@, values, secrets) == (
        if values.dom().contains(name) {
            Ok::<_, InterpolationErrorView>(values[name])
        } else {
            Err(InterpolationErrorView::MissingField(name))
        }),
        interpolate_spec("{"@ + ("secret."@ + name) + "}"@, values, secrets) == (if secrets.dom().contains(name) {
            Ok::<_, InterpolationErrorView>(secrets[name])
        } else {
            Err(InterpolationErrorView::MissingSecret(name))
        }),
        secret_refs(pieces("{"@ + ("secret."@ + name) + "}"@)) == seq![name],
        !has_prefix(name, "secret."@) ==> secret_refs(pieces("{"@ + name + "}"@)).len() == 0,
{
    reveal_strlit("secret.");
    let secret = "secret."@ + name;
    assert(!secret.contains('}')) by {
        if secret.contains('}') {
            let i = secret.index_of('}');
            if i >= 7 {
                assert(name.contains(name[i - 7]));
            }
        }
    }
    lemma_one_reference(name, values, secrets);
    lemma_one_reference(secret, values, secrets);
    assert(secret.subrange(0, 7) =~= "secret."@);
    assert(secret.skip(7) =~= name);
    let ps = seq![PieceView::Ref(secret)];
    assert(ps.drop_last() =~= seq![]);
    assert(ps.last() == PieceView::Ref(secret));
    assert(secret_refs(ps.drop_last()) =~= seq![]);
    assert(secret_refs(ps) =~= seq![name]);
    let qs = seq![PieceView::Ref(name)];
    assert(qs.drop_last() =~= seq![]);
    assert(qs.last() == PieceView::Ref(name));
    assert(secret_refs(qs.drop_last()) =~= seq![]);
}

proof fn lemma_one_reference(
    name: Seq<char>,
    values: Map<Seq<char>, Seq<char>>,
    secrets: Map<Seq<char>, Seq<char>>,
)
    requires
        !name.contains('}'),
    ensures
        pieces("{"@ + name + "}"@) == seq![PieceView::Ref(name)],
        pieces("{"@ + name) == seq![PieceView::Open(name)],
        interpolate_spec("{"@ + name + "}"@, values, secrets) == resolve_piece(PieceView::Ref(name), values, secrets),
        interpolate_spec("{"@ + name, values, secrets) == resolve_piece(PieceView::Ref(name), values, secrets),
{
    reveal_strlit("{");
    reveal_strlit("}");
    let t = "{"@ + name + "}"@;
    let n = name.len() as int;
    assert forall|i: int| 1 <= i < 1 + n implies t[i] != '}' by {
        assert(t[i] == name[i - 1]);
        assert(name.contains(name[i - 1]));
    }
    lemma_find_is(t, '}', 1, 1 + n);
    assert(t.subrange(1, 1 + n) =~= name);
    assert(t.skip(2 + n) =~= seq![]);
    assert(pieces(t.skip(2 + n)) =~= seq![]);
    assert(pieces(t) =~= seq![PieceView::Ref(name)]);
    let u = "{"@ + name;
    assert forall|i: int| 1 <= i < 1 + n implies u[i] != '}' by {
        assert(u[i] == name[i - 1]);
        assert(name.contains(name[i - 1]));
    }
    lemma_find_is(u, '}', 1, 1 + n);
    assert(u.skip(1) =~= name);
    lemma_resolve_front(PieceView::Ref(name), Seq::empty(), values, secrets);
    lemma_resolve_front(PieceView::Open(name), Seq::empty(), values, secrets);
    let one = resolve_piece(PieceView::Ref(name), values, secrets);
    lemma_joined(one, one, one);
    assert(seq![PieceView::Ref(name)] + Seq::empty() =~= seq![PieceView::Ref(name)]);
    assert(seq![PieceView::Open(name)] + Seq::empty() =~= seq![PieceView::Open(name)]);
}

} // verus!
