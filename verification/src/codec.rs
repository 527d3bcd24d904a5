use vstd::prelude::*;

use crate::bangs::Bang;
use crate::bangs::BangView;

verus! {

// ---------------------------------------------------------------------------
// The document and its model
// ---------------------------------------------------------------------------

/// The full collection of records reconstructed from the store file on each
/// operation and discarded afterwards.
#[derive(Debug, PartialEq, Eq)]
pub struct StorageFile {
    pub records: Vec<Bang>,
}

impl View for StorageFile {
    type V = Seq<BangView>;

    open spec fn view(&self) -> Seq<BangView> {
        self.records@.map_values(|b: Bang| b@)
    }
}

impl StorageFile {
    pub fn new() -> (r: Self)
        ensures
            r@ == Seq::<BangView>::empty(),
    {
        let r = StorageFile { records: Vec::new() };
        proof {
            assert(r@ =~= Seq::<BangView>::empty());
        }
        r
    }
}

// ---------------------------------------------------------------------------
// Document operations
// ---------------------------------------------------------------------------

/// The first record whose alias equals `alias` exactly (case-sensitive),
/// in storage order; `None` when no record has that alias.
pub open spec fn find_first(rs: Seq<BangView>, alias: Seq<char>) -> Option<BangView>
    decreases rs.len(),
{
    if rs.len() == 0 {
        None
    } else if rs[0].alias == alias {
        Some(rs[0])
    } else {
        find_first(rs.drop_first(), alias)
    }
}

/// The document with every record of the given alias dropped (all
/// occurrences, not just the first), other records kept in order.
pub open spec fn remove_all(rs: Seq<BangView>, alias: Seq<char>) -> Seq<BangView>
    decreases rs.len(),
{
    if rs.len() == 0 {
        Seq::empty()
    } else if rs[0].alias == alias {
        remove_all(rs.drop_first(), alias)
    } else {
        seq![rs[0]] + remove_all(rs.drop_first(), alias)
    }
}

/// How `remove_all` grows when one record is appended: a matching record is
/// dropped, any other is kept at the end.
pub proof fn lemma_remove_all_push(rs: Seq<BangView>, x: BangView, a: Seq<char>)
    ensures
        remove_all(rs.push(x), a) == remove_all(rs, a) + (if x.alias == a {
            Seq::<BangView>::empty()
        } else {
            seq![x]
        }),
    decreases rs.len(),
{
    if rs.len() == 0 {
        assert(rs.push(x).len() == 1);
        assert(rs.push(x)[0] == x);
        assert(rs.push(x).drop_first() =~= rs);
        assert(remove_all(rs, a) == Seq::<BangView>::empty());
        if x.alias == a {
            assert(remove_all(rs.push(x), a) =~= remove_all(rs, a)
                + Seq::<BangView>::empty());
        } else {
            assert(remove_all(rs.push(x), a) =~= remove_all(rs, a) + seq![x]);
        }
    } else {
        assert(rs.push(x)[0] == rs[0]);
        assert(rs.push(x).drop_first() =~= rs.drop_first().push(x));
        lemma_remove_all_push(rs.drop_first(), x, a);
        if rs[0].alias == a {
        } else {
            if x.alias == a {
                assert(seq![rs[0]] + (remove_all(rs.drop_first(), a)
                    + Seq::<BangView>::empty()) =~= (seq![rs[0]] + remove_all(
                    rs.drop_first(),
                    a,
                )) + Seq::<BangView>::empty());
            } else {
                assert(seq![rs[0]] + (remove_all(rs.drop_first(), a) + seq![x]) =~= (seq![rs[0]]
                    + remove_all(rs.drop_first(), a)) + seq![x]);
            }
        }
    }
}

pub fn find_in(doc: &StorageFile, alias: &String) -> (r: Option<Bang>)
    ensures
        match r {
            Some(b) => find_first(doc@, alias@) == Some(b@),
            None => find_first(doc@, alias@) is None,
        },
{
    let n = doc.records.len();
    proof {
        assert(doc@.skip(0) =~= doc@);
    }
    for i in 0..n
        invariant
            n == doc.records.len(),
            find_first(doc@, alias@) == find_first(doc@.skip(i as int), alias@),
    {
        proof {
            assert(doc@.skip(i as int)[0] == doc@[i as int]);
            assert(doc@.skip(i as int).drop_first() =~= doc@.skip(i + 1));
        }
        if doc.records[i].alias.eq(alias) {
            let b = doc.records[i].clone();
            return Some(b);
        }
    }
    proof {
        assert(doc@.skip(n as int) =~= Seq::<BangView>::empty());
    }
    None
}

pub fn remove_from(doc: StorageFile, alias: &String) -> (r: StorageFile)
    ensures
        r@ == remove_all(doc@, alias@),
{
    let mut kept: Vec<Bang> = Vec::new();
    let n = doc.records.len();
    proof {
        assert(doc@.take(0) =~= Seq::<BangView>::empty());
        assert(kept@.map_values(|b: Bang| b@) =~= Seq::<BangView>::empty());
    }
    for i in 0..n
        invariant
            n == doc.records.len(),
            kept@.map_values(|b: Bang| b@) == remove_all(doc@.take(i as int), alias@),
    {
        proof {
            assert(doc@.take(i + 1) =~= doc@.take(i as int).push(doc@[i as int]));
            lemma_remove_all_push(doc@.take(i as int), doc@[i as int], alias@);
        }
        if !doc.records[i].alias.eq(alias) {
            let ghost old_kept = kept@;
            let b = doc.records[i].clone();
            kept.push(b);
            proof {
                assert(kept@.map_values(|b: Bang| b@) =~= old_kept.map_values(|b: Bang| b@)
                    + seq![doc@[i as int]]);
            }
        } else {
            proof {
                assert(remove_all(doc@.take(i as int), alias@) + Seq::<BangView>::empty()
                    =~= remove_all(doc@.take(i as int), alias@));
            }
        }
    }
    proof {
        assert(doc@.take(n as int) =~= doc@);
    }
    StorageFile { records: kept }
}

pub fn append_to(doc: StorageFile, b: Bang) -> (r: StorageFile)
    ensures
        r@ == doc@.push(b@),
{
    let mut records = doc.records;
    let ghost before = records@;
    records.push(b);
    proof {
        assert(records@.map_values(|x: Bang| x@) =~= before.map_values(|x: Bang| x@).push(
            records@[before.len() as int]@,
        ));
    }
    StorageFile { records }
}

// ---------------------------------------------------------------------------
// The store-file format
//
// The document is kept as UTF-8 text: one object with the single key
// `records`, holding an array of `{ "alias": ..., "url": ... }` objects,
// pretty-printed with two-space indentation so the file stays diffable and
// hand-editable.  Strings escape `"` and `\` and the control characters
// newline, tab and carriage return; every other character stands for itself.
// Decoding is deliberately lenient: text that does not match this shape is
// treated as an empty document, never as an error.
// ---------------------------------------------------------------------------

pub open spec fn doc_open() -> Seq<char> {
    "{\n  \"records\": ["@
}

pub open spec fn empty_tail() -> Seq<char> {
    "]\n}"@
}

pub open spec fn nl() -> Seq<char> {
    "\n"@
}

pub open spec fn rec_open() -> Seq<char> {
    "    {\n      \"alias\": \""@
}

pub open spec fn quote_lit() -> Seq<char> {
    "\""@
}

pub open spec fn rec_mid() -> Seq<char> {
    ",\n      \"url\": \""@
}

pub open spec fn rec_close() -> Seq<char> {
    "\n    }"@
}

pub open spec fn item_sep() -> Seq<char> {
    ",\n"@
}

pub open spec fn doc_tail() -> Seq<char> {
    "\n  ]\n}"@
}

/// The placeholder written when the store file is first created: tolerated
/// by the lenient decoder as an empty document.
pub open spec fn fresh_file() -> Seq<char> {
    "{\n\n}"@
}

/// How one character is written inside a quoted string.
pub open spec fn esc_char(c: char) -> Seq<char> {
    if c == '"' {
        seq!['\\', '"']
    } else if c == '\\' {
        seq!['\\', '\\']
    } else if c == '\n' {
        seq!['\\', 'n']
    } else if c == '\t' {
        seq!['\\', 't']
    } else if c == '\r' {
        seq!['\\', 'r']
    } else {
        seq![c]
    }
}

/// How a whole string is written, character by character (without the
/// surrounding quotes).
pub open spec fn esc_str(s: Seq<char>) -> Seq<char>
    decreases s.len(),
{
    if s.len() == 0 {
        Seq::empty()
    } else {
        esc_char(s[0]) + esc_str(s.drop_first())
    }
}

/// What one escape letter stands for; `None` for an unknown escape.
pub open spec fn unesc(c: char) -> Option<char> {
    if c == '"' {
        Some('"')
    } else if c == '\\' {
        Some('\\')
    } else if c == 'n' {
        Some('\n')
    } else if c == 't' {
        Some('\t')
    } else if c == 'r' {
        Some('\r')
    } else {
        None
    }
}

pub open spec fn enc_item(b: BangView) -> Seq<char> {
    rec_open() + esc_str(b.alias) + quote_lit() + rec_mid() + esc_str(b.url) + quote_lit()
        + rec_close()
}

pub open spec fn enc_items(rs: Seq<BangView>) -> Seq<char>
    decreases rs.len(),
{
    if rs.len() == 0 {
        Seq::empty()
    } else if rs.len() == 1 {
        enc_item(rs[0])
    } else {
        enc_item(rs[0]) + item_sep() + enc_items(rs.drop_first())
    }
}

/// The serialized form of a document: deterministic, stable field order,
/// indented.
pub open spec fn encode_spec(rs: Seq<BangView>) -> Seq<char> {
    if rs.len() == 0 {
        doc_open() + empty_tail()
    } else {
        doc_open() + nl() + enc_items(rs) + doc_tail()
    }
}

// ---------------------------------------------------------------------------
// The parser, at the specification level
// ---------------------------------------------------------------------------

/// The literal `lit` read at position `i`: the position just past it when it
/// is there, `None` otherwise.
pub open spec fn expect(s: Seq<char>, i: nat, lit: Seq<char>) -> Option<nat> {
    if i + lit.len() <= s.len() && s.subrange(i as int, (i + lit.len()) as int) == lit {
        Some((i + lit.len()) as nat)
    } else {
        None
    }
}

/// A quoted string read at position `i` (the opening quote already
/// consumed): the unescaped characters and the position just past the
/// closing quote.
pub open spec fn parse_str_spec(s: Seq<char>, i: nat) -> Option<(Seq<char>, nat)>
    decreases s.len() - i,
{
    if i >= s.len() {
        None
    } else if s[i as int] == '"' {
        Some((Seq::empty(), (i + 1) as nat))
    } else if s[i as int] == '\\' {
        if i + 1 < s.len() {
            match unesc(s[i + 1 as int]) {
                Some(c) => match parse_str_spec(s, (i + 2) as nat) {
                    Some(p) => Some((seq![c] + p.0, p.1)),
                    None => None,
                },
                None => None,
            }
        } else {
            None
        }
    } else {
        match parse_str_spec(s, (i + 1) as nat) {
            Some(p) => Some((seq![s[i as int]] + p.0, p.1)),
            None => None,
        }
    }
}

/// One record object read at position `i`.
pub open spec fn parse_item_spec(s: Seq<char>, i: nat) -> Option<(BangView, nat)> {
    match expect(s, i, rec_open()) {
        Some(j) => match parse_str_spec(s, j) {
            Some(pa) => match expect(s, pa.1, rec_mid()) {
                Some(k) => match parse_str_spec(s, k) {
                    Some(pu) => match expect(s, pu.1, rec_close()) {
                        Some(m) => Some((BangView { alias: pa.0, url: pu.0 }, m)),
                        None => None,
                    },
                    None => None,
                },
                None => None,
            },
            None => None,
        },
        None => None,
    }
}

/// One or more records read at position `i`, separated by `item_sep`.
pub open spec fn parse_items_spec(s: Seq<char>, i: nat) -> Option<(Seq<BangView>, nat)>
    decreases s.len() - i,
{
    match parse_item_spec(s, i) {
        Some(p) => match expect(s, p.1, item_sep()) {
            Some(k) => if i < k && k <= s.len() {
                match parse_items_spec(s, k) {
                    Some(q) => Some((seq![p.0] + q.0, q.1)),
                    None => None,
                }
            } else {
                None
            },
            None => Some((seq![p.0], p.1)),
        },
        None => None,
    }
}

/// A whole document; `None` when the text does not match the format.
pub open spec fn parse_doc_spec(s: Seq<char>) -> Option<Seq<BangView>> {
    match expect(s, 0, doc_open()) {
        Some(j) => match expect(s, j, empty_tail()) {
            Some(k) => if k == s.len() {
                Some(Seq::empty())
            } else {
                None
            },
            None => match expect(s, j, nl()) {
                Some(j2) => match parse_items_spec(s, j2) {
                    Some(p) => match expect(s, p.1, doc_tail()) {
                        Some(m) => if m == s.len() {
                            Some(p.0)
                        } else {
                            None
                        },
                        None => None,
                    },
                    None => None,
                },
                None => None,
            },
        },
        None => None,
    }
}

/// What any text decodes to.  Malformed or empty text is an empty document:
/// the deliberate "corrupt data is treated as no data" policy.
pub open spec fn decode_spec(s: Seq<char>) -> Seq<BangView> {
    match parse_doc_spec(s) {
        Some(rs) => rs,
        None => Seq::empty(),
    }
}

/// The character contents and lengths of the format's literals, and how the
/// combined literals the encoder writes split into the pieces the parser
/// reads.
pub proof fn lemma_lits()
    ensures
        doc_open().len() == 16,
        empty_tail().len() == 3,
        empty_tail()[0] == ']',
        nl().len() == 1,
        nl()[0] == '\n',
        rec_open().len() == 22,
        quote_lit().len() == 1,
        quote_lit()[0] == '"',
        rec_mid().len() == 16,
        rec_mid()[0] == ',',
        rec_close().len() == 6,
        rec_close()[0] == '\n',
        item_sep().len() == 2,
        item_sep()[0] == ',',
        doc_tail().len() == 6,
        doc_tail()[0] == '\n',
        ("\",\n      \"url\": \"")@ == quote_lit() + rec_mid(),
        ("\"\n    }")@ == quote_lit() + rec_close(),
{
    reveal_strlit("{\n  \"records\": [");
    reveal_strlit("]\n}");
    reveal_strlit("\n");
    reveal_strlit("    {\n      \"alias\": \"");
    reveal_strlit("\"");
    reveal_strlit(",\n      \"url\": \"");
    reveal_strlit("\n    }");
    reveal_strlit(",\n");
    reveal_strlit("\n  ]\n}");
    reveal_strlit("\",\n      \"url\": \"");
    reveal_strlit("\"\n    }");
    assert(("\",\n      \"url\": \"")@ =~= quote_lit() + rec_mid());
    assert(("\"\n    }")@ =~= quote_lit() + rec_close());
}

// ---------------------------------------------------------------------------
// Executable codec
// ---------------------------------------------------------------------------

/// Relies on `str::chars` with `Iterator::collect`: the characters of the
/// string, in order.
#[verifier::external_body]
fn chars_vec(s: &str) -> (v: Vec<char>)
    ensures
        v@ == s@,
{
    s.chars().collect()
}

/// Relies on `Iterator::collect` for `String`: the characters joined back
/// into one string.
#[verifier::external_body]
fn string_from_chars(v: &Vec<char>) -> (s: String)
    ensures
        s@ == v@,
{
    v.iter().collect()
}

fn push_all(out: &mut Vec<char>, xs: &Vec<char>)
    ensures
        final(out)@ == old(out)@ + xs@,
{
    let n = xs.len();
    proof {
        assert(out@ =~= old(out)@ + xs@.take(0));
    }
    for i in 0..n
        invariant
            n == xs@.len(),
            out@ == old(out)@ + xs@.take(i as int),
    {
        out.push(xs[i]);
        proof {
            assert(old(out)@ + xs@.take(i + 1) =~= (old(out)@ + xs@.take(i as int)).push(
                xs@[i as int],
            ));
        }
    }
    proof {
        assert(old(out)@ + xs@.take(n as int) =~= old(out)@ + xs@);
    }
}

/// How `esc_str` grows when one character is appended.
proof fn lemma_esc_str_push(s: Seq<char>, c: char)
    ensures
        esc_str(s.push(c)) == esc_str(s) + esc_char(c),
    decreases s.len(),
{
    if s.len() == 0 {
        assert(s.push(c).len() == 1);
        assert(s.push(c)[0] == c);
        assert(s.push(c).drop_first() =~= s);
        assert(esc_str(s) == Seq::<char>::empty());
        assert(esc_str(s.push(c)) =~= esc_str(s) + esc_char(c));
    } else {
        assert(s.push(c)[0] == s[0]);
        assert(s.push(c).drop_first() =~= s.drop_first().push(c));
        lemma_esc_str_push(s.drop_first(), c);
        assert(esc_char(s[0]) + (esc_str(s.drop_first()) + esc_char(c)) =~= (esc_char(s[0])
            + esc_str(s.drop_first())) + esc_char(c));
    }
}

fn push_escaped(out: &mut Vec<char>, s: &String)
    ensures
        final(out)@ == old(out)@ + esc_str(s@),
{
    let cs = chars_vec(s.as_str());
    let n = cs.len();
    proof {
        assert(esc_str(cs@.take(0)) == Seq::<char>::empty());
        assert(out@ =~= old(out)@ + esc_str(cs@.take(0)));
    }
    for i in 0..n
        invariant
            n == cs@.len(),
            cs@ == s@,
            out@ == old(out)@ + esc_str(cs@.take(i as int)),
    {
        let c = cs[i];
        if c == '"' {
            out.push('\\');
            out.push('"');
        } else if c == '\\' {
            out.push('\\');
            out.push('\\');
        } else if c == '\n' {
            out.push('\\');
            out.push('n');
        } else if c == '\t' {
            out.push('\\');
            out.push('t');
        } else if c == '\r' {
            out.push('\\');
            out.push('r');
        } else {
            out.push(c);
        }
        proof {
            assert(cs@.take(i + 1) =~= cs@.take(i as int).push(cs@[i as int]));
            lemma_esc_str_push(cs@.take(i as int), cs@[i as int]);
            assert(out@ =~= (old(out)@ + esc_str(cs@.take(i as int))) + esc_char(cs@[i as int]));
            assert((old(out)@ + esc_str(cs@.take(i as int))) + esc_char(cs@[i as int])
                =~= old(out)@ + (esc_str(cs@.take(i as int)) + esc_char(cs@[i as int])));
        }
    }
    proof {
        assert(cs@.take(n as int) =~= cs@);
    }
}

/// How `enc_items` grows when one record is appended to a non-empty
/// document.
proof fn lemma_enc_items_push(rs: Seq<BangView>, x: BangView)
    requires
        rs.len() > 0,
    ensures
        enc_items(rs.push(x)) == enc_items(rs) + item_sep() + enc_item(x),
    decreases rs.len(),
{
    if rs.len() == 1 {
        assert(rs.push(x).len() == 2);
        assert(rs.push(x)[0] == rs[0]);
        assert(rs.push(x).drop_first() =~= seq![x]);
        assert(enc_items(seq![x]) == enc_item(seq![x][0]));
        assert(enc_items(rs.push(x)) == enc_item(rs[0]) + item_sep() + enc_item(x));
        assert(enc_item(rs[0]) + item_sep() + enc_item(x) =~= enc_items(rs) + item_sep()
            + enc_item(x));
    } else {
        assert(rs.push(x)[0] == rs[0]);
        assert(rs.push(x).drop_first() =~= rs.drop_first().push(x));
        lemma_enc_items_push(rs.drop_first(), x);
        assert(enc_item(rs[0]) + item_sep() + ((enc_items(rs.drop_first()) + item_sep())
            + enc_item(x)) =~= ((enc_item(rs[0]) + item_sep() + enc_items(rs.drop_first()))
            + item_sep()) + enc_item(x));
    }
}

/// Serializes the document: deterministic, stable field order, indented.
pub fn encode(doc: &StorageFile) -> (s: String)
    ensures
        s@ == encode_spec(doc@),
{
    let mut out: Vec<char> = Vec::new();
    let open_l = chars_vec("{\n  \"records\": [");
    push_all(&mut out, &open_l);
    if doc.records.len() == 0 {
        let t = chars_vec("]\n}");
        push_all(&mut out, &t);
        proof {
            assert(doc@.len() == 0);
            assert(out@ =~= encode_spec(doc@));
        }
        return string_from_chars(&out);
    }
    let nl_l = chars_vec("\n");
    push_all(&mut out, &nl_l);
    let sep_l = chars_vec(",\n");
    let rec_open_l = chars_vec("    {\n      \"alias\": \"");
    let q_mid_l = chars_vec("\",\n      \"url\": \"");
    let q_close_l = chars_vec("\"\n    }");
    let n = doc.records.len();
    proof {
        lemma_lits();
        assert(enc_items(doc@.take(0)) == Seq::<char>::empty());
        assert(out@ =~= doc_open() + nl() + enc_items(doc@.take(0)));
    }
    for i in 0..n
        invariant
            n == doc.records.len(),
            open_l@ == doc_open(),
            nl_l@ == nl(),
            sep_l@ == item_sep(),
            rec_open_l@ == rec_open(),
            q_mid_l@ == quote_lit() + rec_mid(),
            q_close_l@ == quote_lit() + rec_close(),
            out@ == doc_open() + nl() + enc_items(doc@.take(i as int)),
    {
        let ghost mid = enc_items(doc@.take(i as int)) + (if i == 0 {
            Seq::<char>::empty()
        } else {
            item_sep()
        });
        if i > 0 {
            push_all(&mut out, &sep_l);
        }
        proof {
            assert(out@ =~= doc_open() + nl() + mid);
        }
        push_all(&mut out, &rec_open_l);
        push_escaped(&mut out, &doc.records[i].alias);
        push_all(&mut out, &q_mid_l);
        push_escaped(&mut out, &doc.records[i].url);
        push_all(&mut out, &q_close_l);
        proof {
            assert(doc@[i as int].alias == doc.records@[i as int]@.alias);
            assert(doc@[i as int].url == doc.records@[i as int]@.url);
            assert(out@ =~= doc_open() + nl() + (mid + enc_item(doc@[i as int])));
            assert(doc@.take(i + 1) =~= doc@.take(i as int).push(doc@[i as int]));
            if i == 0 {
                assert(doc@.take(1).len() == 1);
                assert(enc_items(doc@.take(1)) == enc_item(doc@.take(1)[0]));
                assert(mid + enc_item(doc@[i as int]) =~= enc_items(doc@.take(i + 1)));
            } else {
                lemma_enc_items_push(doc@.take(i as int), doc@[i as int]);
                assert(mid + enc_item(doc@[i as int]) =~= enc_items(doc@.take(i + 1)));
            }
        }
    }
    let tail_l = chars_vec("\n  ]\n}");
    push_all(&mut out, &tail_l);
    proof {
        assert(doc@.take(n as int) =~= doc@);
        assert(out@ =~= encode_spec(doc@));
    }
    string_from_chars(&out)
}

// ---------------------------------------------------------------------------
// Executable parser
// ---------------------------------------------------------------------------

fn expect_lit(v: &Vec<char>, i: usize, lit: &Vec<char>) -> (r: Option<usize>)
    ensures
        match r {
            Some(j) => expect(v@, i as nat, lit@) == Some(j as nat),
            None => expect(v@, i as nat, lit@) is None,
        },
{
    if i > v.len() || lit.len() > v.len() - i {
        return None;
    }
    let m = lit.len();
    let vn = v.len();
    for t in 0..m
        invariant
            i + m <= vn,
            vn == v@.len(),
            m == lit@.len(),
            forall|u: int| 0 <= u < t ==> v@[i + u] == lit@[u],
    {
        if v[i + t] != lit[t] {
            proof {
                assert(v@.subrange(i as int, (i + m) as int)[t as int] == v@[i + t]);
                assert(v@.subrange(i as int, (i + m) as int) != lit@);
            }
            return None;
        }
    }
    proof {
        assert(v@.subrange(i as int, (i + m) as int) =~= lit@);
    }
    Some(i + m)
}

fn parse_str(v: &Vec<char>, i: usize) -> (r: Option<(Vec<char>, usize)>)
    ensures
        match r {
            Some(p) => parse_str_spec(v@, i as nat) == Some((p.0@, p.1 as nat)),
            None => parse_str_spec(v@, i as nat) is None,
        },
    decreases v@.len() - i,
{
    if i >= v.len() {
        return None;
    }
    let c = v[i];
    if c == '"' {
        let empty: Vec<char> = Vec::new();
        proof {
            assert(empty@ =~= Seq::<char>::empty());
        }
        return Some((empty, i + 1));
    }
    if c == '\\' {
        if i + 1 >= v.len() {
            return None;
        }
        let e = v[i + 1];
        let u: char;
        if e == '"' {
            u = '"';
        } else if e == '\\' {
            u = '\\';
        } else if e == 'n' {
            u = '\n';
        } else if e == 't' {
            u = '\t';
        } else if e == 'r' {
            u = '\r';
        } else {
            return None;
        }
        match parse_str(v, i + 2) {
            Some((t, j)) => {
                let mut t = t;
                let ghost told = t@;
                t.insert(0, u);
                proof {
                    assert(t@ =~= seq![u] + told);
                }
                return Some((t, j));
            },
            None => return None,
        }
    }
    match parse_str(v, i + 1) {
        Some((t, j)) => {
            let mut t = t;
            let ghost told = t@;
            t.insert(0, c);
            proof {
                assert(t@ =~= seq![c] + told);
            }
            Some((t, j))
        },
        None => None,
    }
}

fn parse_item(
    v: &Vec<char>,
    i: usize,
    rec_open_l: &Vec<char>,
    rec_mid_l: &Vec<char>,
    rec_close_l: &Vec<char>,
) -> (r: Option<(Bang, usize)>)
    requires
        rec_open_l@ == rec_open(),
        rec_mid_l@ == rec_mid(),
        rec_close_l@ == rec_close(),
    ensures
        match r {
            Some(p) => parse_item_spec(v@, i as nat) == Some((p.0@, p.1 as nat)),
            None => parse_item_spec(v@, i as nat) is None,
        },
{
    let j = match expect_lit(v, i, rec_open_l) {
        Some(j) => j,
        None => return None,
    };
    let (a, k) = match parse_str(v, j) {
        Some(p) => p,
        None => return None,
    };
    let k2 = match expect_lit(v, k, rec_mid_l) {
        Some(x) => x,
        None => return None,
    };
    let (u, m) = match parse_str(v, k2) {
        Some(p) => p,
        None => return None,
    };
    let m2 = match expect_lit(v, m, rec_close_l) {
        Some(x) => x,
        None => return None,
    };
    let b = Bang { alias: string_from_chars(&a), url: string_from_chars(&u) };
    Some((b, m2))
}

fn parse_items(
    v: &Vec<char>,
    i: usize,
    rec_open_l: &Vec<char>,
    rec_mid_l: &Vec<char>,
    rec_close_l: &Vec<char>,
    sep_l: &Vec<char>,
) -> (r: Option<(Vec<Bang>, usize)>)
    requires
        rec_open_l@ == rec_open(),
        rec_mid_l@ == rec_mid(),
        rec_close_l@ == rec_close(),
        sep_l@ == item_sep(),
    ensures
        match r {
            Some(p) => parse_items_spec(v@, i as nat) == Some(
                (p.0@.map_values(|b: Bang| b@), p.1 as nat),
            ),
            None => parse_items_spec(v@, i as nat) is None,
        },
    decreases v@.len() - i,
{
    let (b, k) = match parse_item(v, i, rec_open_l, rec_mid_l, rec_close_l) {
        Some(p) => p,
        None => return None,
    };
    match expect_lit(v, k, sep_l) {
        Some(k2) => {
            if !(k2 > i && k2 <= v.len()) {
                return None;
            }
            match parse_items(v, k2, rec_open_l, rec_mid_l, rec_close_l, sep_l) {
                Some((rest, m)) => {
                    let mut rest = rest;
                    let ghost rold = rest@;
                    rest.insert(0, b);
                    proof {
                        assert(rest@.map_values(|b: Bang| b@) =~= seq![rest@[0]@] + rold.map_values(
                            |b: Bang| b@,
                        ));
                    }
                    Some((rest, m))
                },
                None => None,
            }
        },
        None => {
            let mut one: Vec<Bang> = Vec::new();
            one.push(b);
            proof {
                assert(one@.map_values(|b: Bang| b@) =~= seq![one@[0]@]);
            }
            Some((one, k))
        },
    }
}

/// Deserializes text into a document.  Never fails outward: malformed or
/// empty text yields an empty document.
pub fn decode(text: &str) -> (doc: StorageFile)
    ensures
        doc@ == decode_spec(text@),
{
    let v = chars_vec(text);
    let doc_open_l = chars_vec("{\n  \"records\": [");
    let empty_tail_l = chars_vec("]\n}");
    let nl_l = chars_vec("\n");
    let rec_open_l = chars_vec("    {\n      \"alias\": \"");
    let rec_mid_l = chars_vec(",\n      \"url\": \"");
    let rec_close_l = chars_vec("\n    }");
    let sep_l = chars_vec(",\n");
    let doc_tail_l = chars_vec("\n  ]\n}");
    let j = match expect_lit(&v, 0, &doc_open_l) {
        Some(j) => j,
        None => return StorageFile::new(),
    };
    match expect_lit(&v, j, &empty_tail_l) {
        Some(_k) => {
            return StorageFile::new();
        },
        None => {},
    }
    let j2 = match expect_lit(&v, j, &nl_l) {
        Some(x) => x,
        None => return StorageFile::new(),
    };
    let (records, k) = match parse_items(&v, j2, &rec_open_l, &rec_mid_l, &rec_close_l, &sep_l) {
        Some(p) => p,
        None => return StorageFile::new(),
    };
    let m = match expect_lit(&v, k, &doc_tail_l) {
        Some(x) => x,
        None => return StorageFile::new(),
    };
    if m != v.len() {
        return StorageFile::new();
    }
    StorageFile { records }
}

// ---------------------------------------------------------------------------
// Round trip: the parser inverts the encoder
// ---------------------------------------------------------------------------

/// The parser reads back exactly the string the encoder escaped, stopping at
/// the closing quote that follows it.
proof fn lemma_parse_str_esc(s: Seq<char>, i: nat, x: Seq<char>)
    requires
        i + esc_str(x).len() + 1 <= s.len(),
        s.subrange(i as int, (i + esc_str(x).len()) as int) == esc_str(x),
        s[(i + esc_str(x).len()) as int] == '"',
    ensures
        parse_str_spec(s, i) == Some((x, (i + esc_str(x).len() + 1) as nat)),
    decreases x.len(),
{
    let e = esc_str(x);
    if x.len() == 0 {
        assert(e.len() == 0);
        assert(s[i as int] == '"');
        assert(Seq::<char>::empty() =~= x);
    } else {
        let c = x[0];
        let rest = x.drop_first();
        let e1 = esc_char(c);
        let e2 = esc_str(rest);
        assert(e == e1 + e2);
        assert(seq![c] + rest =~= x);
        let m = e1.len() as int;
        // the head characters of the escaped text
        assert(s.subrange(i as int, (i + e.len()) as int)[0] == s[i as int]);
        assert(s[i as int] == e[0]);
        if e1.len() == 2 {
            assert(s.subrange(i as int, (i + e.len()) as int)[1] == s[i as int + 1]);
            assert(s[i as int + 1] == e[1]);
        }
        // the escaped tail sits right after the head
        assert(forall|u: int| 0 <= u < e2.len() ==> s[i + m + u] == #[trigger] e2[u]) by {
            assert(forall|u: int|
                0 <= u < e2.len() ==> s.subrange(i as int, (i + e.len()) as int)[m + u]
                    == #[trigger] e[m + u]);
            assert(forall|u: int| 0 <= u < e2.len() ==> e[m + u] == #[trigger] e2[u]);
        }
        assert(s.subrange(i as int + m, i as int + m + e2.len() as int) =~= e2);
        assert(s[(i + e.len()) as int] == '"');
        if c == '"' {
            assert(e[0] == '\\' && e[1] == '"');
            lemma_parse_str_esc(s, (i + 2) as nat, rest);
            assert(parse_str_spec(s, i) == Some((x, (i + e.len() + 1) as nat)));
        } else if c == '\\' {
            assert(e[0] == '\\' && e[1] == '\\');
            lemma_parse_str_esc(s, (i + 2) as nat, rest);
            assert(parse_str_spec(s, i) == Some((x, (i + e.len() + 1) as nat)));
        } else if c == '\n' {
            assert(e[0] == '\\' && e[1] == 'n');
            lemma_parse_str_esc(s, (i + 2) as nat, rest);
            assert(parse_str_spec(s, i) == Some((x, (i + e.len() + 1) as nat)));
        } else if c == '\t' {
            assert(e[0] == '\\' && e[1] == 't');
            lemma_parse_str_esc(s, (i + 2) as nat, rest);
            assert(parse_str_spec(s, i) == Some((x, (i + e.len() + 1) as nat)));
        } else if c == '\r' {
            assert(e[0] == '\\' && e[1] == 'r');
            lemma_parse_str_esc(s, (i + 2) as nat, rest);
            assert(parse_str_spec(s, i) == Some((x, (i + e.len() + 1) as nat)));
        } else {
            assert(e[0] == c);
            assert(c != '"' && c != '\\');
            lemma_parse_str_esc(s, (i + 1) as nat, rest);
            assert(parse_str_spec(s, i) == Some((x, (i + e.len() + 1) as nat)));
        }
    }
}

/// A slice of the text whose characters all agree with `part` equals `part`.
proof fn lemma_region(s: Seq<char>, lo: int, part: Seq<char>)
    requires
        0 <= lo,
        lo + part.len() <= s.len(),
        forall|u: int| 0 <= u < part.len() ==> s[lo + u] == #[trigger] part[u],
    ensures
        s.subrange(lo, lo + part.len()) == part,
{
    assert(s.subrange(lo, lo + part.len()) =~= part);
}

/// The parser reads back exactly the record the encoder wrote.
proof fn lemma_parse_item_enc(s: Seq<char>, i: nat, b: BangView)
    requires
        i + enc_item(b).len() <= s.len(),
        s.subrange(i as int, (i + enc_item(b).len()) as int) == enc_item(b),
    ensures
        parse_item_spec(s, i) == Some((b, (i + enc_item(b).len()) as nat)),
{
    lemma_lits();
    let t = enc_item(b);
    let ea = esc_str(b.alias);
    let eu = esc_str(b.url);
    assert(t.len() == 22 + ea.len() + 1 + 16 + eu.len() + 1 + 6);
    // each character of the slice agrees with the encoded record
    assert(forall|k: int| 0 <= k < t.len() ==> s[i + k] == #[trigger] t[k]) by {
        assert(forall|k: int| 0 <= k < t.len() ==> s.subrange(
            i as int,
            (i + t.len()) as int,
        )[k] == #[trigger] t[k]);
    }
    // the record opener
    assert(forall|u: int| 0 <= u < 22 ==> s[i + u] == #[trigger] rec_open()[u]) by {
        assert(forall|u: int| 0 <= u < 22 ==> t[u] == #[trigger] rec_open()[u]);
    }
    lemma_region(s, i as int, rec_open());
    assert(expect(s, i, rec_open()) == Some((i + 22) as nat));
    // the alias string, closed by the quote the encoder wrote
    let p1: nat = (i + 22) as nat;
    assert(forall|u: int| 0 <= u < ea.len() ==> s[p1 + u] == #[trigger] ea[u]) by {
        assert(forall|u: int| 0 <= u < ea.len() ==> t[22 + u] == #[trigger] ea[u]);
    }
    lemma_region(s, p1 as int, ea);
    assert(t[(22 + ea.len()) as int] == quote_lit()[0]);
    assert(s[(p1 + ea.len()) as int] == '"');
    lemma_parse_str_esc(s, p1, b.alias);
    let p2: nat = (p1 + ea.len() + 1) as nat;
    // the field separator
    assert(forall|u: int| 0 <= u < 16 ==> s[p2 + u] == #[trigger] rec_mid()[u]) by {
        assert(forall|u: int| 0 <= u < 16 ==> t[23 + ea.len() + u] == #[trigger] rec_mid()[u]);
    }
    lemma_region(s, p2 as int, rec_mid());
    assert(expect(s, p2, rec_mid()) == Some((p2 + 16) as nat));
    let p3: nat = (p2 + 16) as nat;
    // the url string
    assert(forall|u: int| 0 <= u < eu.len() ==> s[p3 + u] == #[trigger] eu[u]) by {
        assert(forall|u: int| 0 <= u < eu.len() ==> t[39 + ea.len() + u] == #[trigger] eu[u]);
    }
    lemma_region(s, p3 as int, eu);
    assert(t[(39 + ea.len() + eu.len()) as int] == quote_lit()[0]);
    assert(s[(p3 + eu.len()) as int] == '"');
    lemma_parse_str_esc(s, p3, b.url);
    let p4: nat = (p3 + eu.len() + 1) as nat;
    // the record closer
    assert(forall|u: int| 0 <= u < 6 ==> s[p4 + u] == #[trigger] rec_close()[u]) by {
        assert(forall|u: int|
            0 <= u < 6 ==> t[40 + ea.len() + eu.len() + u] == #[trigger] rec_close()[u]);
    }
    lemma_region(s, p4 as int, rec_close());
    assert(expect(s, p4, rec_close()) == Some((p4 + 6) as nat));
    assert(p4 + 6 == i + t.len());
    assert(BangView { alias: b.alias, url: b.url } == b);
}

/// The parser reads back exactly the record list the encoder wrote, stopping
/// where the closing of the document begins.
proof fn lemma_parse_items_enc(s: Seq<char>, i: nat, rs: Seq<BangView>)
    requires
        rs.len() > 0,
        i + enc_items(rs).len() + 1 <= s.len(),
        s.subrange(i as int, (i + enc_items(rs).len()) as int) == enc_items(rs),
        s[(i + enc_items(rs).len()) as int] == '\n',
    ensures
        parse_items_spec(s, i) == Some((rs, (i + enc_items(rs).len()) as nat)),
    decreases rs.len(),
{
    lemma_lits();
    let t = enc_items(rs);
    assert(forall|k: int| 0 <= k < t.len() ==> s[i + k] == #[trigger] t[k]) by {
        assert(forall|k: int| 0 <= k < t.len() ==> s.subrange(
            i as int,
            (i + t.len()) as int,
        )[k] == #[trigger] t[k]);
    }
    if rs.len() == 1 {
        assert(t == enc_item(rs[0]));
        lemma_parse_item_enc(s, i, rs[0]);
        let k: nat = (i + t.len()) as nat;
        // no separator follows: the next character opens the document tail
        if k + 2 <= s.len() {
            assert(s.subrange(k as int, (k + 2) as int)[0] == s[k as int]);
            assert(s.subrange(k as int, (k + 2) as int) != item_sep());
        }
        assert(expect(s, k, item_sep()) is None);
        assert(seq![rs[0]] =~= rs);
    } else {
        let t1 = enc_item(rs[0]);
        let rest = rs.drop_first();
        let t2 = enc_items(rest);
        assert(t == t1 + item_sep() + t2);
        assert(t.len() == t1.len() + 2 + t2.len());
        // this record
        assert(forall|u: int| 0 <= u < t1.len() ==> s[i + u] == #[trigger] t1[u]) by {
            assert(forall|u: int| 0 <= u < t1.len() ==> t[u] == #[trigger] t1[u]);
        }
        lemma_region(s, i as int, t1);
        lemma_parse_item_enc(s, i, rs[0]);
        let k: nat = (i + t1.len()) as nat;
        // the separator between records
        assert(forall|u: int| 0 <= u < 2 ==> s[k + u] == #[trigger] item_sep()[u]) by {
            assert(forall|u: int| 0 <= u < 2 ==> t[t1.len() + u] == #[trigger] item_sep()[u]);
        }
        lemma_region(s, k as int, item_sep());
        assert(expect(s, k, item_sep()) == Some((k + 2) as nat));
        let k2: nat = (k + 2) as nat;
        // the remaining records
        assert(forall|u: int| 0 <= u < t2.len() ==> s[k2 + u] == #[trigger] t2[u]) by {
            assert(forall|u: int| 0 <= u < t2.len() ==> t[t1.len() + 2 + u] == #[trigger] t2[u]);
        }
        lemma_region(s, k2 as int, t2);
        assert(s[(k2 + t2.len()) as int] == '\n');
        lemma_parse_items_enc(s, k2, rest);
        assert(seq![rs[0]] + rest =~= rs);
        assert(parse_items_spec(s, i) == Some((rs, (i + t.len()) as nat)));
    }
}

/// Round trip: decoding what the encoder produced yields the document back,
/// for every document.
pub proof fn lemma_round_trip(rs: Seq<BangView>)
    ensures
        decode_spec(encode_spec(rs)) == rs,
{
    lemma_lits();
    let s = encode_spec(rs);
    if rs.len() == 0 {
        assert(s == doc_open() + empty_tail());
        assert(s.len() == 19);
        assert(forall|u: int| 0 <= u < 16 ==> s[u] == #[trigger] doc_open()[u]);
        lemma_region(s, 0, doc_open());
        assert(expect(s, 0, doc_open()) == Some(16nat));
        assert(forall|u: int| 0 <= u < 3 ==> s[16 + u] == #[trigger] empty_tail()[u]);
        lemma_region(s, 16, empty_tail());
        assert(expect(s, 16nat, empty_tail()) == Some(19nat));
        assert(parse_doc_spec(s) == Some(Seq::<BangView>::empty()));
        assert(decode_spec(s) =~= rs);
    } else {
        let ti = enc_items(rs);
        assert(s == doc_open() + nl() + ti + doc_tail());
        assert(s.len() == 16 + 1 + ti.len() + 6);
        assert(forall|u: int| 0 <= u < 16 ==> s[u] == #[trigger] doc_open()[u]);
        lemma_region(s, 0, doc_open());
        assert(expect(s, 0, doc_open()) == Some(16nat));
        // not the empty document: the next character is a newline, not `]`
        assert(forall|u: int| 0 <= u < 1 ==> s[16 + u] == #[trigger] nl()[u]);
        assert(s[16] == '\n');
        if 16 + 3 <= s.len() {
            assert(s.subrange(16, 19)[0] == s[16]);
            assert(s.subrange(16, 19) != empty_tail());
        }
        assert(expect(s, 16nat, empty_tail()) is None);
        lemma_region(s, 16, nl());
        assert(expect(s, 16nat, nl()) == Some(17nat));
        // the records
        assert(forall|u: int| 0 <= u < ti.len() ==> s[17 + u] == #[trigger] ti[u]);
        lemma_region(s, 17, ti);
        assert(forall|u: int| 0 <= u < 6 ==> s[17 + ti.len() + u] == #[trigger] doc_tail()[u]);
        assert(s[17 + ti.len() as int] == '\n');
        lemma_parse_items_enc(s, 17nat, rs);
        let k: nat = (17 + ti.len()) as nat;
        // the document tail, ending exactly at the end of the text
        lemma_region(s, k as int, doc_tail());
        assert(expect(s, k, doc_tail()) == Some((k + 6) as nat));
        assert(k + 6 == s.len());
        assert(parse_doc_spec(s) == Some(rs));
    }
}

// ---------------------------------------------------------------------------
// Laws of the document operations
// ---------------------------------------------------------------------------

/// The placeholder written on first use decodes to the empty document.
pub proof fn lemma_fresh_file_empty()
    ensures
        decode_spec(fresh_file()) == Seq::<BangView>::empty(),
{
    reveal_strlit("{\n\n}");
    lemma_lits();
    assert(fresh_file().len() == 4);
    assert(expect(fresh_file(), 0, doc_open()) is None);
}

/// Add-then-find: a newly added record is found under its alias.  Lookup
/// returns the first match and duplicates are permitted, so the claim asks
/// that any record already carrying the alias equal the added one.
pub proof fn lemma_add_then_find(rs: Seq<BangView>, b: BangView)
    requires
        forall|j: int| 0 <= j < rs.len() && (#[trigger] rs[j]).alias == b.alias ==> rs[j] == b,
    ensures
        find_first(rs.push(b), b.alias) == Some(b),
    decreases rs.len(),
{
    if rs.len() == 0 {
        assert(rs.push(b).len() == 1);
        assert(rs.push(b)[0] == b);
    } else {
        assert(rs.push(b)[0] == rs[0]);
        if rs[0].alias == b.alias {
            assert(rs[0] == b);
        } else {
            assert(rs.push(b).drop_first() =~= rs.drop_first().push(b));
            assert(forall|j: int|
                0 <= j < rs.drop_first().len() && (#[trigger] rs.drop_first()[j]).alias == b.alias
                    ==> rs.drop_first()[j] == b);
            lemma_add_then_find(rs.drop_first(), b);
        }
    }
}

/// Remove-then-find: once every record of an alias is dropped, lookup of
/// that alias finds nothing.
pub proof fn lemma_remove_then_find(rs: Seq<BangView>, a: Seq<char>)
    ensures
        find_first(remove_all(rs, a), a) is None,
    decreases rs.len(),
{
    if rs.len() == 0 {
    } else if rs[0].alias == a {
        lemma_remove_then_find(rs.drop_first(), a);
    } else {
        lemma_remove_then_find(rs.drop_first(), a);
        let r = remove_all(rs, a);
        assert(r == seq![rs[0]] + remove_all(rs.drop_first(), a));
        assert(r[0] == rs[0]);
        assert(r.drop_first() =~= remove_all(rs.drop_first(), a));
    }
}

/// No record of a removed alias survives, duplicates included.
pub proof fn lemma_remove_all_drops_alias(rs: Seq<BangView>, a: Seq<char>)
    ensures
        forall|j: int|
            0 <= j < remove_all(rs, a).len() ==> (#[trigger] remove_all(rs, a)[j]).alias != a,
    decreases rs.len(),
{
    if rs.len() == 0 {
    } else if rs[0].alias == a {
        lemma_remove_all_drops_alias(rs.drop_first(), a);
        assert(remove_all(rs, a) == remove_all(rs.drop_first(), a));
    } else {
        lemma_remove_all_drops_alias(rs.drop_first(), a);
        assert forall|j: int|
            0 <= j < remove_all(rs, a).len() implies (#[trigger] remove_all(rs, a)[j]).alias
            != a by {
            assert(remove_all(rs, a) == seq![rs[0]] + remove_all(rs.drop_first(), a));
            if j == 0 {
                assert(remove_all(rs, a)[0] == rs[0]);
            } else {
                assert(remove_all(rs, a)[j] == remove_all(rs.drop_first(), a)[j - 1]);
            }
        }
    }
}

} // verus!
