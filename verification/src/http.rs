//! The retrieval side: parsing a minimal HTTP GET request line, resolving its
//! target against the storage root with a two-phase traversal defense, and
//! rendering the exact response bytes.
//!
//! Everything here is pure: the caller reads the request bytes from the
//! connection, runs [`plan_request`], performs whatever filesystem work the
//! plan asks for, and renders the reply with the response builders.

use vstd::prelude::*;

use crate::bytescan::{
    contains_dotdot, copy_range, eq_bytes, find_lf, has_dotdot, is_prefix, is_space,
    lemma_find_lf_bounds, lemma_find_lf_exact, lemma_skip_slashes_exact, lemma_token_end_bounds,
    lemma_token_end_exact, push_all, scan_lf,
    scan_non_slash, scan_token_end, skip_slashes, starts_with, token_end, tokens_from,
};
use vstd::string::{StrSliceExecFns, StringSliceAdditionalSpecFns};
use vstd::utf8::{is_ascii_chars, is_ascii_chars_encode_utf8};

verus! {

// ---------------------------------------------------------------------------
// Response rendering
// ---------------------------------------------------------------------------

/// Decimal digits of `n`, most significant first, as ASCII bytes.
pub open spec fn dec_rep(n: nat) -> Seq<u8>
    decreases n,
{
    if n < 10 {
        seq![(48 + n) as u8]
    } else {
        dec_rep((n / 10) as nat).push((48 + n % 10) as u8)
    }
}

/// Renders `n` in decimal.
pub fn dec_of(n: usize) -> (v: Vec<u8>)
    ensures
        v@ == dec_rep(n as nat),
    decreases n,
{
    if n < 10 {
        let mut v: Vec<u8> = Vec::new();
        v.push(48 + n as u8);
        assert(v@ =~= dec_rep(n as nat));
        v
    } else {
        let mut v = dec_of(n / 10);
        v.push(48 + (n % 10) as u8);
        v
    }
}

/// Reply to a request line that is not a three-token GET.
pub open spec fn bad_request_line_bytes() -> Seq<u8> {
    "HTTP/1.1 400 Bad Request\r\n\r\nInvalid request".spec_bytes()
}

pub fn bad_request_line_response() -> (v: Vec<u8>)
    ensures
        v@ == bad_request_line_bytes(),
{
    "HTTP/1.1 400 Bad Request\r\n\r\nInvalid request".as_bytes_vec()
}

/// Reply to a target that does not carry the configured hidden prefix.
pub open spec fn missing_prefix_bytes() -> Seq<u8> {
    "HTTP/1.1 404 Not Found\r\n\r\nNot Found".spec_bytes()
}

pub fn missing_prefix_response() -> (v: Vec<u8>)
    ensures
        v@ == missing_prefix_bytes(),
{
    "HTTP/1.1 404 Not Found\r\n\r\nNot Found".as_bytes_vec()
}

/// Reply to a candidate path that fails the syntactic traversal pre-filter.
pub open spec fn bad_request_path_bytes() -> Seq<u8> {
    "HTTP/1.1 400 Bad Request\r\n\r\nInvalid path specified.".spec_bytes()
}

pub fn bad_request_path_response() -> (v: Vec<u8>)
    ensures
        v@ == bad_request_path_bytes(),
{
    "HTTP/1.1 400 Bad Request\r\n\r\nInvalid path specified.".as_bytes_vec()
}

/// Reply to a resolved path that escaped the storage root.
pub open spec fn forbidden_bytes() -> Seq<u8> {
    "HTTP/1.1 403 Forbidden\r\n\r\nAccess Denied".spec_bytes()
}

pub fn forbidden_response() -> (v: Vec<u8>)
    ensures
        v@ == forbidden_bytes(),
{
    "HTTP/1.1 403 Forbidden\r\n\r\nAccess Denied".as_bytes_vec()
}

/// Reply to a target that cannot be resolved or opened.
pub open spec fn file_not_found_bytes() -> Seq<u8> {
    "HTTP/1.1 404 Not Found\r\n\r\nFile not found".spec_bytes()
}

pub fn file_not_found_response() -> (v: Vec<u8>)
    ensures
        v@ == file_not_found_bytes(),
{
    "HTTP/1.1 404 Not Found\r\n\r\nFile not found".as_bytes_vec()
}

/// Reply when the storage directory itself cannot be enumerated.
pub open spec fn listing_failed_bytes() -> Seq<u8> {
    "HTTP/1.1 500 Internal Server Error\r\n\r\nUnable to read directory".spec_bytes()
}

pub fn listing_failed_response() -> (v: Vec<u8>)
    ensures
        v@ == listing_failed_bytes(),
{
    "HTTP/1.1 500 Internal Server Error\r\n\r\nUnable to read directory".as_bytes_vec()
}

/// The success reply for a served file: status line, `Content-Length` equal
/// to the body's byte length, a blank line, then the raw content.
pub open spec fn ok_file_bytes(content: Seq<u8>) -> Seq<u8> {
    "HTTP/1.1 200 OK\r\nContent-Length: ".spec_bytes() + dec_rep(content.len())
        + "\r\n\r\n".spec_bytes() + content
}

pub fn file_response(content: &[u8]) -> (v: Vec<u8>)
    ensures
        v@ == ok_file_bytes(content@),
{
    let mut v = "HTTP/1.1 200 OK\r\nContent-Length: ".as_bytes_vec();
    let mut d = dec_of(content.len());
    v.append(&mut d);
    push_all(&mut v, "\r\n\r\n".as_bytes());
    push_all(&mut v, content);
    assert(v@ =~= ok_file_bytes(content@));
    v
}

// ---------------------------------------------------------------------------
// Directory listing
// ---------------------------------------------------------------------------

/// The href a listing entry links to: `/<hidden>/<name>`, or `/<name>` when
/// no hidden prefix is configured.
pub open spec fn href_bytes(hidden: Seq<u8>, name: Seq<u8>) -> Seq<u8> {
    if hidden.len() == 0 {
        seq![47u8] + name
    } else {
        seq![47u8] + hidden + seq![47u8] + name
    }
}

/// One listing entry: an anchor whose href names the entry and whose text is
/// the entry's name, followed by a line break.
pub open spec fn link_bytes(hidden: Seq<u8>, name: Seq<u8>) -> Seq<u8> {
    "<a href=\"".spec_bytes() + href_bytes(hidden, name) + "\">".spec_bytes() + name
        + "</a><br>".spec_bytes()
}

/// The listing body: one link per entry, in the order given.
pub open spec fn listing_body_bytes(hidden: Seq<u8>, names: Seq<Seq<u8>>) -> Seq<u8>
    decreases names.len(),
{
    if names.len() == 0 {
        Seq::empty()
    } else {
        link_bytes(hidden, names[0]) + listing_body_bytes(hidden, names.drop_first())
    }
}

proof fn lemma_listing_body_snoc(hidden: Seq<u8>, names: Seq<Seq<u8>>, name: Seq<u8>)
    ensures
        listing_body_bytes(hidden, names.push(name)) == listing_body_bytes(hidden, names)
            + link_bytes(hidden, name),
    decreases names.len(),
{
    if names.len() == 0 {
        assert(names.push(name)[0] == name);
        assert(names.push(name).drop_first() =~= Seq::<Seq<u8>>::empty());
        assert(listing_body_bytes(hidden, Seq::<Seq<u8>>::empty()) == Seq::<u8>::empty());
        assert(names =~= Seq::<Seq<u8>>::empty());
        assert(listing_body_bytes(hidden, names.push(name)) == link_bytes(hidden, name)
            + listing_body_bytes(hidden, names.push(name).drop_first()));
        assert(listing_body_bytes(hidden, names.push(name)) =~= listing_body_bytes(hidden, names)
            + link_bytes(hidden, name));
    } else {
        assert(names.push(name)[0] == names[0]);
        assert(names.push(name).drop_first() =~= names.drop_first().push(name));
        lemma_listing_body_snoc(hidden, names.drop_first(), name);
        assert(listing_body_bytes(hidden, names.push(name)) == link_bytes(hidden, names[0])
            + listing_body_bytes(hidden, names.drop_first().push(name)));
        assert(listing_body_bytes(hidden, names.push(name)) =~= listing_body_bytes(hidden, names)
            + link_bytes(hidden, name));
    }
}

/// The success reply for a directory listing: HTML content type, and a body
/// linking every entry.
pub open spec fn ok_listing_bytes(hidden: Seq<u8>, names: Seq<Seq<u8>>) -> Seq<u8> {
    "HTTP/1.1 200 OK\r\nContent-Length: ".spec_bytes() + dec_rep(
        listing_body_bytes(hidden, names).len(),
    ) + "\r\nContent-Type: text/html\r\n\r\n".spec_bytes() + listing_body_bytes(hidden, names)
}

/// Renders one listing entry.
fn link_of(hidden: &[u8], name: &[u8]) -> (v: Vec<u8>)
    ensures
        v@ == link_bytes(hidden@, name@),
{
    let mut v = "<a href=\"".as_bytes_vec();
    v.push(47);
    if hidden.len() > 0 {
        push_all(&mut v, hidden);
        v.push(47);
    }
    push_all(&mut v, name);
    push_all(&mut v, "\">".as_bytes());
    push_all(&mut v, name);
    push_all(&mut v, "</a><br>".as_bytes());
    assert(v@ =~= link_bytes(hidden@, name@));
    v
}

/// Renders the full `200 OK` listing response for the given entry names.
pub fn listing_response(hidden: &[u8], names: &Vec<Vec<u8>>) -> (v: Vec<u8>)
    ensures
        v@ == ok_listing_bytes(hidden@, names.deep_view()),
{
    let mut body: Vec<u8> = Vec::new();
    let mut i: usize = 0;
    proof {
        assert(names.deep_view().take(0) =~= Seq::<Seq<u8>>::empty());
    }
    while i < names.len()
        invariant
            i <= names@.len(),
            names.deep_view().len() == names@.len(),
            body@ == listing_body_bytes(hidden@, names.deep_view().take(i as int)),
        decreases names@.len() - i,
    {
        let mut link = link_of(hidden, names[i].as_slice());
        proof {
            assert(names.deep_view()[i as int] == names@[i as int]@);
            lemma_listing_body_snoc(hidden@, names.deep_view().take(i as int),
                names.deep_view()[i as int]);
            assert(names.deep_view().take(i + 1) =~= names.deep_view().take(i as int).push(
                names.deep_view()[i as int],
            ));
        }
        body.append(&mut link);
        i += 1;
    }
    proof {
        assert(names.deep_view().take(names@.len() as int) =~= names.deep_view());
    }
    let mut v = "HTTP/1.1 200 OK\r\nContent-Length: ".as_bytes_vec();
    let mut d = dec_of(body.len());
    v.append(&mut d);
    push_all(&mut v, "\r\nContent-Type: text/html\r\n\r\n".as_bytes());
    push_all(&mut v, body.as_slice());
    assert(v@ =~= ok_listing_bytes(hidden@, names.deep_view()));
    v
}

// ---------------------------------------------------------------------------
// Request parsing and target resolution
// ---------------------------------------------------------------------------

/// The first line of the request: everything before the first line feed,
/// with a trailing carriage return dropped.
pub open spec fn request_line(req: Seq<u8>) -> Seq<u8> {
    let line = req.subrange(0, find_lf(req, 0));
    if line.len() > 0 && line[line.len() - 1] == 13 {
        line.drop_last()
    } else {
        line
    }
}

/// The request's target, when the request line is a three-token GET.
pub open spec fn target_of(req: Seq<u8>) -> Option<Seq<u8>> {
    let toks = tokens_from(request_line(req), 0);
    if toks.len() == 3 && toks[0] == "GET".spec_bytes() {
        Some(toks[1])
    } else {
        None
    }
}

/// The target with its leading slashes stripped: what the hidden prefix is
/// matched against.
pub open spec fn stripped_target(target: Seq<u8>) -> Seq<u8> {
    target.subrange(skip_slashes(target, 0), target.len() as int)
}

/// The path relative to the storage root, when the stripped target carries
/// the hidden prefix: the prefix and any slashes after it are removed.
pub open spec fn rel_path_of(target: Seq<u8>, hidden: Seq<u8>) -> Option<Seq<u8>> {
    let path = stripped_target(target);
    if starts_with(path, hidden) {
        let rest = path.subrange(hidden.len() as int, path.len() as int);
        Some(rest.subrange(skip_slashes(rest, 0), rest.len() as int))
    } else {
        None
    }
}

/// The candidate path: the relative path joined onto the storage root.
pub open spec fn candidate_of(root: Seq<u8>, rel: Seq<u8>) -> Seq<u8> {
    if rel.len() == 0 {
        root
    } else {
        root + seq![47u8] + rel
    }
}

/// Textual path containment: `path` is `root` itself or lies below it.
/// Both the syntactic pre-filter and the post-canonicalization check use
/// this one predicate.
pub open spec fn within_root(root: Seq<u8>, path: Seq<u8>) -> bool {
    path == root || (path.len() > root.len() && starts_with(path, root) && path[root.len() as int]
        == 47)
}

pub fn is_within_root(root: &[u8], path: &[u8]) -> (r: bool)
    ensures
        r == within_root(root@, path@),
{
    if eq_bytes(path, root) {
        true
    } else if path.len() > root.len() && is_prefix(path, root) && path[root.len()] == 47 {
        true
    } else {
        false
    }
}

/// What one retrieval request asks of its caller.
pub enum Plan {
    /// The request is answered outright with these bytes.
    Reply(Vec<u8>),
    /// The request asks for the directory listing.
    Listing,
    /// The request asks for the file at this candidate path, which still has
    /// to be canonicalized and re-checked against the root.
    Serve(Vec<u8>),
}

/// The specification-level image of a [`Plan`].
pub enum PlanSpec {
    Reply(Seq<u8>),
    Listing,
    Serve(Seq<u8>),
}

impl View for Plan {
    type V = PlanSpec;

    open spec fn view(&self) -> PlanSpec {
        match self {
            Plan::Reply(v) => PlanSpec::Reply(v@),
            Plan::Listing => PlanSpec::Listing,
            Plan::Serve(v) => PlanSpec::Serve(v@),
        }
    }
}

/// The whole decision for one request, before any filesystem access:
/// parse the request line, demand the hidden prefix, join the relative path
/// onto the root, and run the syntactic traversal pre-filter.
pub open spec fn plan_of(req: Seq<u8>, hidden: Seq<u8>, root: Seq<u8>) -> PlanSpec {
    match target_of(req) {
        Option::None => PlanSpec::Reply(bad_request_line_bytes()),
        Option::Some(target) => match rel_path_of(target, hidden) {
            Option::None => PlanSpec::Reply(missing_prefix_bytes()),
            Option::Some(rel) => {
                let candidate = candidate_of(root, rel);
                if contains_dotdot(candidate) || !within_root(root, candidate) {
                    PlanSpec::Reply(bad_request_path_bytes())
                } else if rel.len() == 0 {
                    PlanSpec::Listing
                } else {
                    PlanSpec::Serve(candidate)
                }
            },
        },
    }
}

/// Splits the request line into its whitespace-separated tokens.
fn tokenize(line: &[u8]) -> (toks: Vec<Vec<u8>>)
    ensures
        toks.deep_view() == tokens_from(line@, 0),
{
    let mut toks: Vec<Vec<u8>> = Vec::new();
    let mut i: usize = 0;
    while i < line.len()
        invariant
            i <= line@.len(),
            tokens_from(line@, 0) == toks.deep_view() + tokens_from(line@, i as int),
        decreases line@.len() - i,
    {
        if line[i] == 32 || line[i] == 9 {
            assert(tokens_from(line@, i as int) == tokens_from(line@, i + 1 as int));
            i += 1;
        } else {
            proof {
                lemma_token_end_bounds(line@, i as int);
            }
            let j = scan_token_end(line, i);
            let tok = copy_range(line, i, j);
            let ghost before = toks.deep_view();
            toks.push(tok);
            proof {
                assert(tok.deep_view() =~= tok@);
                assert(toks.deep_view() =~= before.push(tok@));
                assert(tokens_from(line@, i as int) == seq![
                    line@.subrange(i as int, token_end(line@, i as int)),
                ] + tokens_from(line@, token_end(line@, i as int)));
                assert(tokens_from(line@, 0) =~= toks.deep_view() + tokens_from(line@, j as int));
            }
            i = j;
        }
    }
    assert(tokens_from(line@, i as int) =~= Seq::<Seq<u8>>::empty());
    assert(toks.deep_view() =~= tokens_from(line@, 0));
    toks
}

/// Decides one retrieval request: the returned plan is exactly
/// [`plan_of`] on the request bytes, the hidden prefix and the storage root.
pub fn plan_request(req: &[u8], hidden: &[u8], root: &[u8]) -> (p: Plan)
    ensures
        p@ == plan_of(req@, hidden@, root@),
{
    let lf = scan_lf(req, 0);
    let mut lend = lf;
    if lend > 0 && req[lend - 1] == 13 {
        lend -= 1;
    }
    let line = copy_range(req, 0, lend);
    proof {
        lemma_find_lf_bounds(req@, 0);
        assert(line@ =~= request_line(req@));
    }
    let toks = tokenize(line.as_slice());
    if !(toks.len() == 3 && eq_bytes(toks[0].as_slice(), "GET".as_bytes())) {
        proof {
            if toks@.len() == 3 {
                assert(toks.deep_view()[0] == toks@[0].deep_view());
                assert(toks@[0].deep_view() =~= toks@[0]@);
            }
        }
        return Plan::Reply(bad_request_line_response());
    }
    proof {
        assert(toks@[0].deep_view() =~= toks@[0]@);
        assert(toks@[1].deep_view() =~= toks@[1]@);
    }
    assert(toks.deep_view()[0] == "GET".spec_bytes());
    let target = toks[1].as_slice();
    assert(target@ == toks.deep_view()[1]);
    let ps = scan_non_slash(target, 0);
    let path = copy_range(target, ps, target.len());
    assert(path@ == stripped_target(target@));
    if !is_prefix(path.as_slice(), hidden) {
        return Plan::Reply(missing_prefix_response());
    }
    let rest = copy_range(path.as_slice(), hidden.len(), path.len());
    let rs = scan_non_slash(rest.as_slice(), 0);
    let rel = copy_range(rest.as_slice(), rs, rest.len());
    proof {
        assert(rest@ =~= stripped_target(target@).subrange(
            hidden@.len() as int,
            stripped_target(target@).len() as int,
        ));
        assert(rel_path_of(target@, hidden@) == Option::Some(rel@));
    }
    let mut candidate: Vec<u8> = Vec::new();
    push_all(&mut candidate, root);
    if rel.len() > 0 {
        candidate.push(47);
        push_all(&mut candidate, rel.as_slice());
    }
    assert(candidate@ =~= candidate_of(root@, rel@));
    if has_dotdot(candidate.as_slice()) || !is_within_root(root, candidate.as_slice()) {
        return Plan::Reply(bad_request_path_response());
    }
    if rel.len() == 0 {
        Plan::Listing
    } else {
        Plan::Serve(candidate)
    }
}

// ---------------------------------------------------------------------------
// Laws
// ---------------------------------------------------------------------------

/// A well-formed GET whose prefix-stripped relative path holds `..` anywhere
/// is answered `400 Bad Request`: it is never served and never listed.
pub proof fn lemma_dotdot_rejected(req: Seq<u8>, hidden: Seq<u8>, root: Seq<u8>)
    requires
        target_of(req) is Some,
        rel_path_of(target_of(req)->Some_0, hidden) is Some,
        contains_dotdot(rel_path_of(target_of(req)->Some_0, hidden)->Some_0),
    ensures
        plan_of(req, hidden, root) == PlanSpec::Reply(bad_request_path_bytes()),
{
    let target = target_of(req)->Some_0;
    let rel = rel_path_of(target, hidden)->Some_0;
    let candidate = candidate_of(root, rel);
    let k = choose|k: int|
        0 <= k && k + 2 <= rel.len() && #[trigger] rel[k] == 46 && rel[k + 1] == 46;
    assert(rel.len() >= 2);
    let base = root.len() + 1;
    assert(candidate[base + k] == 46 && candidate[base + k + 1] == 46);
    assert(contains_dotdot(candidate));
}

/// A target that does not carry the configured hidden prefix is answered
/// `404 Not Found`, whatever else it holds.
pub proof fn lemma_missing_prefix_not_found(req: Seq<u8>, hidden: Seq<u8>, root: Seq<u8>)
    requires
        target_of(req) is Some,
        rel_path_of(target_of(req)->Some_0, hidden) is None,
    ensures
        plan_of(req, hidden, root) == PlanSpec::Reply(missing_prefix_bytes()),
{
}

/// Whatever the plan asks to serve was confined by the pre-filter: a `Serve`
/// candidate never holds `..` and lies textually below the storage root.
pub proof fn lemma_served_candidate_confined(req: Seq<u8>, hidden: Seq<u8>, root: Seq<u8>)
    ensures
        plan_of(req, hidden, root) matches PlanSpec::Serve(candidate) ==> !contains_dotdot(
            candidate,
        ) && within_root(root, candidate),
{
}

/// The raw request bytes for `GET <target> HTTP/1.1`.
pub open spec fn get_request_bytes(target: Seq<u8>) -> Seq<u8> {
    "GET ".spec_bytes() + target + " HTTP/1.1\r\n".spec_bytes()
}

/// A whitespace- and newline-free target: one the request line carries
/// verbatim.
pub open spec fn plain_target(target: Seq<u8>) -> bool {
    forall|i: int|
        0 <= i < target.len() ==> !is_space(#[trigger] target[i]) && target[i] != 10 && target[i]
            != 13
}

/// The parser recovers any plain target verbatim from the GET request built
/// around it.
pub proof fn lemma_get_request_target(target: Seq<u8>)
    requires
        target.len() > 0,
        plain_target(target),
    ensures
        target_of(get_request_bytes(target)) == Some::<Seq<u8>>(target),
{
    reveal_strlit("GET ");
    reveal_strlit(" HTTP/1.1\r\n");
    reveal_strlit("GET");
    let p = "GET ".spec_bytes();
    let q = " HTTP/1.1\r\n".spec_bytes();
    assert(is_ascii_chars("GET "@));
    assert(is_ascii_chars(" HTTP/1.1\r\n"@));
    assert(is_ascii_chars("GET"@));
    is_ascii_chars_encode_utf8("GET "@);
    is_ascii_chars_encode_utf8(" HTTP/1.1\r\n"@);
    is_ascii_chars_encode_utf8("GET"@);
    assert(p =~= seq![71u8, 69u8, 84u8, 32u8]);
    assert(q =~= seq![32u8, 72u8, 84u8, 84u8, 80u8, 47u8, 49u8, 46u8, 49u8, 13u8, 10u8]);
    assert("GET".spec_bytes() =~= seq![71u8, 69u8, 84u8]);
    let req = get_request_bytes(target);
    let t = target.len() as int;
    let n = req.len() as int;
    assert(n == t + 15);
    assert(req[n - 1] == 10);
    assert(forall|k: int| 0 <= k < n - 1 ==> req[k] != 10) by {
        assert(forall|k: int| 0 <= k < 4 ==> req[k] != 10);
        assert(forall|k: int| 4 <= k < 4 + t ==> req[k] == target[k - 4] && req[k] != 10);
        assert(forall|k: int| 4 + t <= k < n - 1 ==> req[k] == q[k - 4 - t] && req[k] != 10);
    }
    lemma_find_lf_exact(req, 0, n - 1);
    let line = request_line(req);
    assert(req.subrange(0, n - 1)[n - 2] == 13);
    let m = t + 13;
    assert(line =~= p + target + seq![32u8, 72u8, 84u8, 84u8, 80u8, 47u8, 49u8, 46u8, 49u8]);
    assert(line.len() == m);
    lemma_token_end_exact(line, 0, 3);
    assert(tokens_from(line, 0) == seq![line.subrange(0, 3)] + tokens_from(line, 3));
    assert(is_space(line[3]));
    assert(tokens_from(line, 3) == tokens_from(line, 4));
    lemma_token_end_exact(line, 4, 4 + t);
    assert(tokens_from(line, 4) == seq![line.subrange(4, 4 + t)] + tokens_from(line, 4 + t));
    assert(is_space(line[4 + t]));
    assert(tokens_from(line, 4 + t) == tokens_from(line, 5 + t));
    lemma_token_end_exact(line, 5 + t, m);
    assert(tokens_from(line, 5 + t) == seq![line.subrange(5 + t, m)] + tokens_from(line, m));
    assert(tokens_from(line, m) =~= Seq::<Seq<u8>>::empty());
    assert(line.subrange(0, 3) =~= "GET".spec_bytes());
    assert(line.subrange(4, 4 + t) =~= target);
    let toks = tokens_from(line, 0);
    assert(toks =~= seq!["GET".spec_bytes(), target, line.subrange(5 + t, m)]);
}

/// A name or prefix as it appears in a stored file's retrieval target: no
/// whitespace, no newline, and — for a name — no leading slash.
pub open spec fn target_for(hidden: Seq<u8>, name: Seq<u8>) -> Seq<u8> {
    seq![47u8] + hidden + seq![47u8] + name
}

/// A request whose target names a stored file under the hidden prefix is
/// planned as serving exactly `<root>/<name>`: together with
/// [`file_response`]'s contract, such a request is answered `200 OK` with the
/// file's bytes as the whole body.
pub proof fn lemma_named_file_served(req: Seq<u8>, hidden: Seq<u8>, name: Seq<u8>, root: Seq<u8>)
    requires
        target_of(req) == Some(target_for(hidden, name)),
        name.len() > 0,
        name[0] != 47,
        hidden.len() == 0 || hidden[0] != 47,
        !contains_dotdot(name),
        !contains_dotdot(root),
    ensures
        plan_of(req, hidden, root) == PlanSpec::Serve(root + seq![47u8] + name),
{
    let target = target_for(hidden, name);
    let h = hidden.len() as int;
    if h == 0 {
        assert(target[0] == 47 && target[1] == 47 && target[2] == name[0]);
        lemma_skip_slashes_exact(target, 0, 2);
        assert(stripped_target(target) =~= name);
        let path = stripped_target(target);
        assert(starts_with(path, hidden)) by {
            assert(path.subrange(0, 0) =~= hidden);
        }
        let rest = path.subrange(0, path.len() as int);
        assert(rest =~= name);
        lemma_skip_slashes_exact(name, 0, 0);
        assert(rel_path_of(target, hidden) == Some(name)) by {
            assert(name.subrange(0, name.len() as int) =~= name);
        }
    } else {
        assert(target[1] == hidden[0]);
        lemma_skip_slashes_exact(target, 0, 1);
        let path = stripped_target(target);
        assert(path =~= hidden + seq![47u8] + name);
        assert(starts_with(path, hidden)) by {
            assert(path.subrange(0, h) =~= hidden);
        }
        let rest = path.subrange(h, path.len() as int);
        assert(rest =~= seq![47u8] + name);
        lemma_skip_slashes_exact(rest, 0, 1);
        assert(rel_path_of(target, hidden) == Some(name)) by {
            assert(rest.subrange(1, rest.len() as int) =~= name);
        }
    }
    let candidate = candidate_of(root, name);
    let r = root.len() as int;
    assert(!contains_dotdot(candidate)) by {
        if contains_dotdot(candidate) {
            let k = choose|k: int|
                0 <= k && k + 2 <= candidate.len() && #[trigger] candidate[k] == 46 && candidate[k
                    + 1] == 46;
            if k + 2 <= r {
                assert(root[k] == 46 && root[k + 1] == 46);
                assert(contains_dotdot(root));
            } else if k >= r + 1 {
                assert(name[k - r - 1] == 46 && name[k - r] == 46);
                assert(contains_dotdot(name));
            } else {
                assert(candidate[r] == 47);
            }
        }
    }
    assert(within_root(root, candidate)) by {
        assert(candidate.subrange(0, r) =~= root);
        assert(candidate[r] == 47);
    }
}

/// The whole positive path for one stored file, from raw request bytes: the
/// request `GET /<hidden>/<name> HTTP/1.1` is planned as serving exactly
/// `<root>/<name>`.
pub proof fn lemma_get_file_plan(hidden: Seq<u8>, name: Seq<u8>, root: Seq<u8>)
    requires
        name.len() > 0,
        name[0] != 47,
        hidden.len() == 0 || hidden[0] != 47,
        plain_target(name),
        plain_target(hidden),
        !contains_dotdot(name),
        !contains_dotdot(root),
    ensures
        plan_of(get_request_bytes(target_for(hidden, name)), hidden, root) == PlanSpec::Serve(
            root + seq![47u8] + name,
        ),
{
    let target = target_for(hidden, name);
    assert(plain_target(target)) by {
        assert(forall|i: int| 0 <= i < target.len() ==> target[i] == 47 || (1 <= i < 1
            + hidden.len() && #[trigger] target[i] == hidden[i - 1]) || (i >= 2 + hidden.len()
            && target[i] == name[i - 2 - hidden.len()]));
    }
    lemma_get_request_target(target);
    lemma_named_file_served(get_request_bytes(target), hidden, name, root);
}

} // verus!
