//! Corpus ingestion: JSON records to [`RawDocument`]s.
//!
//! Corpus records vary between files in their field names (`docid`,
//! `doc_id`, `id`, `text`, `passage`, `content`, nested `passages`
//! arrays, ...). A parsed JSON value is held as a [`JsonArena`]: nodes that
//! refer to their children by position, so the extraction rules below read
//! it as plain data.

use vstd::prelude::*;

use crate::numfmt::{digits, padded, push_padded};
use crate::oreo_config::OreoError;
use crate::preprocess::RawDocument;
use crate::settings::segments;
use crate::text::{chars_eq, chars_of, is_blank, push_char, push_str, string_from, trim_seq, views, all_white};

verus! {

/// One JSON value; arrays and objects refer to their children by their
/// position in the arena.
#[derive(Debug, Clone, PartialEq)]
pub enum JsonNode {
    /// `null`.
    Null,
    /// `true` or `false`.
    Bool(bool),
    /// A number; carries its value when it is an integer that fits `i64`.
    Number(Option<i64>),
    /// A string.
    Str(String),
    /// An array of child positions.
    Array(Vec<usize>),
    /// An object: keys with child positions, in document order.
    Object(Vec<(String, usize)>),
}

/// A parsed JSON document: its nodes, the root first.
#[derive(Debug, Clone, PartialEq)]
pub struct JsonArena {
    /// The nodes.
    pub nodes: Vec<JsonNode>,
}

/// The node at position `i` (`null` when there is none).
pub open spec fn node_at(a: Seq<JsonNode>, i: int) -> JsonNode {
    if 0 <= i < a.len() {
        a[i]
    } else {
        JsonNode::Null
    }
}

/// The string at position `i`, if that node is a string.
pub open spec fn str_at(a: Seq<JsonNode>, i: int) -> Option<Seq<char>> {
    match node_at(a, i) {
        JsonNode::Str(s) => Some(s@),
        _ => None,
    }
}

/// The value of field `key` of the object at `i`: the first entry with that
/// key.
pub open spec fn field_in(fields: Seq<(String, usize)>, key: Seq<char>) -> Option<int>
    decreases fields.len(),
{
    if fields.len() == 0 {
        None
    } else if fields[0].0@ == key {
        Some(fields[0].1 as int)
    } else {
        field_in(fields.drop_first(), key)
    }
}

/// The value of field `key` of the node at `i`, if it is an object with
/// that field.
pub open spec fn get_at(a: Seq<JsonNode>, i: int, key: Seq<char>) -> Option<int> {
    match node_at(a, i) {
        JsonNode::Object(fields) => field_in(fields@, key),
        _ => None,
    }
}

/// The decimal text of `v`.
pub open spec fn int_text(v: i64) -> Seq<char> {
    if v < 0 {
        seq!['-'] + digits((-v) as nat, 10)
    } else {
        digits(v as nat, 10)
    }
}

/// An identifier value: a string, or an integer rendered in decimal.
pub open spec fn id_value(a: Seq<JsonNode>, i: Option<int>) -> Option<Seq<char>> {
    match i {
        None => None,
        Some(c) => match node_at(a, c) {
            JsonNode::Str(s) => Some(s@),
            JsonNode::Number(Some(v)) => Some(int_text(v)),
            _ => None,
        },
    }
}

/// The first identifier among the candidate `fields` of the object at `i`.
pub open spec fn find_id(a: Seq<JsonNode>, i: int, fields: Seq<Seq<char>>) -> Option<Seq<char>>
    decreases fields.len(),
{
    if fields.len() == 0 {
        None
    } else {
        match id_value(a, get_at(a, i, fields[0])) {
            Some(id) => Some(id),
            None => find_id(a, i, fields.drop_first()),
        }
    }
}

/// Candidate field names for the document id, in priority order.
pub open spec fn id_fields() -> Seq<Seq<char>> {
    seq!["docid"@, "doc_id"@, "document_id"@, "id"@, "_id"@, "qid"@]
}

/// Candidate field names for an id inside a passage object.
pub open spec fn passage_id_fields() -> Seq<Seq<char>> {
    seq!["docid"@, "doc_id"@, "document_id"@, "id"@]
}

/// Candidate field names for the passage text, in priority order.
pub open spec fn text_fields() -> Seq<Seq<char>> {
    seq!["text"@, "passage"@, "content"@, "body"@, "document"@, "segment"@, "answer"@]
}

/// Nested containers that may hold passage lists.
pub open spec fn passage_list_fields() -> Seq<Seq<char>> {
    seq!["positive_passages"@, "passages"@, "negative_passages"@]
}

/// The text of an array item: the item itself when it is a string, else its
/// `text` field when that is a string.
pub open spec fn item_text(a: Seq<JsonNode>, item: int) -> Option<Seq<char>> {
    match str_at(a, item) {
        Some(t) => Some(t),
        None => match get_at(a, item, "text"@) {
            Some(c) => str_at(a, c),
            None => None,
        },
    }
}

/// The texts of the items `items`, skipping items without one.
pub open spec fn item_texts(a: Seq<JsonNode>, items: Seq<usize>) -> Seq<Seq<char>>
    decreases items.len(),
{
    if items.len() == 0 {
        seq![]
    } else {
        let prev = item_texts(a, items.drop_last());
        match item_text(a, items.last() as int) {
            Some(t) => prev.push(t),
            None => prev,
        }
    }
}

/// The texts a text field holds: itself when a string, the texts of its
/// items when an array, none otherwise.
pub open spec fn field_texts(a: Seq<JsonNode>, value: Option<int>) -> Seq<Seq<char>> {
    match value {
        None => seq![],
        Some(c) => match node_at(a, c) {
            JsonNode::Str(s) => seq![s@],
            JsonNode::Array(items) => item_texts(a, items@),
            _ => seq![],
        },
    }
}

/// The texts of the first of `fields` that yields any text.
pub open spec fn first_texts(a: Seq<JsonNode>, i: int, fields: Seq<Seq<char>>) -> Seq<Seq<char>>
    decreases fields.len(),
{
    if fields.len() == 0 {
        seq![]
    } else {
        let t = field_texts(a, get_at(a, i, fields[0]));
        if t.len() > 0 {
            t
        } else {
            first_texts(a, i, fields.drop_first())
        }
    }
}

/// The texts of the first passage list (an array field among `fields`)
/// that yields any text.
pub open spec fn first_list_texts(a: Seq<JsonNode>, i: int, fields: Seq<Seq<char>>) -> Seq<Seq<char>>
    decreases fields.len(),
{
    if fields.len() == 0 {
        seq![]
    } else {
        let t = match get_at(a, i, fields[0]) {
            Some(c) => match node_at(a, c) {
                JsonNode::Array(items) => item_texts(a, items@),
                _ => seq![],
            },
            None => seq![],
        };
        if t.len() > 0 {
            t
        } else {
            first_list_texts(a, i, fields.drop_first())
        }
    }
}

/// `parts` joined by single spaces.
pub open spec fn join_spaced(parts: Seq<Seq<char>>) -> Seq<char>
    decreases parts.len(),
{
    if parts.len() == 0 {
        seq![]
    } else if parts.len() == 1 {
        parts[0]
    } else {
        join_spaced(parts.drop_last()) + seq![' '] + parts.last()
    }
}

/// The single id/text pair of the record at `i`: its id (empty when it has
/// none) and its texts joined; none when it is not an object or has no
/// text but white space.
pub open spec fn record_pair(a: Seq<JsonNode>, i: int) -> Option<(Seq<char>, Seq<char>)> {
    match node_at(a, i) {
        JsonNode::Object(_) => {
            let direct = first_texts(a, i, text_fields());
            let texts = if direct.len() > 0 {
                direct
            } else {
                first_list_texts(a, i, passage_list_fields())
            };
            let text = join_spaced(texts);
            if all_white(text) {
                None
            } else {
                Some(
                    (
                        match find_id(a, i, id_fields()) {
                            Some(id) => id,
                            None => seq![],
                        },
                        text,
                    ),
                )
            }
        },
        _ => None,
    }
}

/// The passages of a passage list as standalone id/text pairs (items
/// without text, or with only white space, are skipped).
pub open spec fn passage_pairs(a: Seq<JsonNode>, items: Seq<usize>) -> Seq<(Seq<char>, Seq<char>)>
    decreases items.len(),
{
    if items.len() == 0 {
        seq![]
    } else {
        let prev = passage_pairs(a, items.drop_last());
        let item = items.last() as int;
        match item_text(a, item) {
            Some(t) => if all_white(t) {
                prev
            } else {
                prev.push(
                    (
                        match find_id(a, item, passage_id_fields()) {
                            Some(id) => id,
                            None => seq![],
                        },
                        t,
                    ),
                )
            },
            None => prev,
        }
    }
}

/// Every pair carries an id.
pub open spec fn all_have_ids(pairs: Seq<(Seq<char>, Seq<char>)>) -> bool {
    forall|k: int| 0 <= k < pairs.len() ==> (#[trigger] pairs[k]).0.len() > 0
}

/// The pairs of the first passage list among `fields` whose passages are
/// all standalone documents (each with its own id).
pub open spec fn expanded_pairs(a: Seq<JsonNode>, i: int, fields: Seq<Seq<char>>) -> Option<
    Seq<(Seq<char>, Seq<char>)>,
>
    decreases fields.len(),
{
    if fields.len() == 0 {
        None
    } else {
        let found = match get_at(a, i, fields[0]) {
            Some(c) => match node_at(a, c) {
                JsonNode::Array(items) => {
                    let p = passage_pairs(a, items@);
                    if p.len() > 0 && all_have_ids(p) {
                        Some(p)
                    } else {
                        None
                    }
                },
                _ => None,
            },
            None => None,
        };
        match found {
            Some(p) => Some(p),
            None => expanded_pairs(a, i, fields.drop_first()),
        }
    }
}

/// The id/text pairs of the record at `i`: one per passage when the record
/// lists standalone passages, else at most its single pair.
pub open spec fn record_pairs(a: Seq<JsonNode>, i: int) -> Seq<(Seq<char>, Seq<char>)> {
    match node_at(a, i) {
        JsonNode::Object(_) => match expanded_pairs(a, i, passage_list_fields()) {
            Some(p) => p,
            None => match record_pair(a, i) {
                Some(pair) => seq![pair],
                None => seq![],
            },
        },
        _ => seq![],
    }
}

/// A record that lists no standalone passages yields at most one pair.
pub proof fn lemma_plain_record_yields_at_most_one_pair(a: Seq<JsonNode>, i: int)
    requires
        expanded_pairs(a, i, passage_list_fields()) is None,
    ensures
        record_pairs(a, i).len() <= 1,
{
}

/// The views of an id/text pair list.
pub open spec fn pair_views(v: Seq<(String, String)>) -> Seq<(Seq<char>, Seq<char>)> {
    v.map_values(|p: (String, String)| (p.0@, p.1@))
}

fn node_ref(a: &JsonArena, i: usize) -> (n: Option<&JsonNode>)
    ensures
        i < a.nodes@.len() ==> n == Some(&a.nodes@[i as int]),
        i >= a.nodes@.len() ==> n is None,
{
    if i < a.nodes.len() {
        Some(&a.nodes[i])
    } else {
        None
    }
}

fn str_value(a: &JsonArena, i: usize) -> (r: Option<String>)
    ensures
        match str_at(a.nodes@, i as int) {
            Some(s) => r matches Some(x) && x@ == s,
            None => r is None,
        },
{
    match node_ref(a, i) {
        Some(JsonNode::Str(s)) => Some(string_from(chars_of(s.as_str()).as_slice())),
        _ => None,
    }
}

fn field_of(fields: &Vec<(String, usize)>, key: &str) -> (r: Option<usize>)
    ensures
        match r {
            Some(c) => field_in(fields@, key@) == Some(c as int),
            None => field_in(fields@, key@) is None,
        },
{
    let kc = chars_of(key);
    let n = fields.len();
    let mut k: usize = 0;
    assert(fields@.subrange(0, n as int) =~= fields@);
    while k < n
        invariant
            n == fields@.len(),
            k <= n,
            kc@ == key@,
            field_in(fields@.subrange(k as int, n as int), key@) == field_in(fields@, key@),
        decreases n - k,
    {
        let ghost rest = fields@.subrange(k as int, n as int);
        assert(rest[0] == fields@[k as int]);
        assert(rest.drop_first() =~= fields@.subrange(k + 1, n as int));
        if chars_eq(chars_of(fields[k].0.as_str()).as_slice(), kc.as_slice()) {
            return Some(fields[k].1);
        }
        k += 1;
    }
    None
}

fn get_field(a: &JsonArena, i: usize, key: &str) -> (r: Option<usize>)
    ensures
        match r {
            Some(c) => get_at(a.nodes@, i as int, key@) == Some(c as int),
            None => get_at(a.nodes@, i as int, key@) is None,
        },
{
    match node_ref(a, i) {
        Some(JsonNode::Object(fields)) => field_of(fields, key),
        _ => None,
    }
}

fn push_int(s: &mut String, v: i64)
    ensures
        final(s)@ == old(s)@ + int_text(v),
{
    if v < 0 {
        push_char(s, '-');
        let mag: u128 = (0 - (v as i128)) as u128;
        let ghost before = s@;
        push_padded(s, mag, 10, 1);
        proof {
            crate::numfmt::lemma_digits((-v) as nat, 10);
        }
        assert(old(s)@ + seq!['-'] + digits((-v) as nat, 10) =~= old(s)@ + int_text(v));
    } else {
        push_padded(s, v as u128, 10, 1);
        proof {
            crate::numfmt::lemma_digits(v as nat, 10);
        }
    }
}

fn id_value_exec(a: &JsonArena, i: Option<usize>) -> (r: Option<String>)
    ensures
        match id_value(a.nodes@, match i {
            Some(c) => Some(c as int),
            None => None,
        }) {
            Some(s) => r matches Some(x) && x@ == s,
            None => r is None,
        },
{
    match i {
        None => None,
        Some(c) => match node_ref(a, c) {
            Some(JsonNode::Str(s)) => Some(string_from(chars_of(s.as_str()).as_slice())),
            Some(JsonNode::Number(Some(v))) => {
                let mut t = String::new();
                push_int(&mut t, *v);
                Some(t)
            },
            _ => None,
        },
    }
}

fn find_id_exec(a: &JsonArena, i: usize, fields: &Vec<&str>) -> (r: Option<String>)
    ensures
        match find_id(a.nodes@, i as int, fields@.map_values(|f: &str| f@)) {
            Some(s) => r matches Some(x) && x@ == s,
            None => r is None,
        },
{
    let ghost fs = fields@.map_values(|f: &str| f@);
    let n = fields.len();
    let mut k: usize = 0;
    assert(fs.subrange(0, n as int) =~= fs);
    while k < n
        invariant
            n == fields@.len(),
            fs == fields@.map_values(|f: &str| f@),
            k <= n,
            find_id(a.nodes@, i as int, fs.subrange(k as int, n as int)) == find_id(a.nodes@, i as int, fs),
        decreases n - k,
    {
        let ghost rest = fs.subrange(k as int, n as int);
        assert(rest[0] == fields@[k as int]@);
        assert(rest.drop_first() =~= fs.subrange(k + 1, n as int));
        let v = id_value_exec(a, get_field(a, i, fields[k]));
        if v.is_some() {
            return v;
        }
        k += 1;
    }
    assert(fs.subrange(n as int, n as int) =~= Seq::<Seq<char>>::empty());
    None
}

fn item_text_exec(a: &JsonArena, item: usize) -> (r: Option<String>)
    ensures
        match item_text(a.nodes@, item as int) {
            Some(s) => r matches Some(x) && x@ == s,
            None => r is None,
        },
{
    match str_value(a, item) {
        Some(t) => Some(t),
        None => match get_field(a, item, "text") {
            Some(c) => str_value(a, c),
            None => None,
        },
    }
}

fn item_texts_exec(a: &JsonArena, items: &Vec<usize>) -> (r: Vec<String>)
    ensures
        views(r@) == item_texts(a.nodes@, items@),
{
    let n = items.len();
    let mut out: Vec<String> = Vec::new();
    let mut k: usize = 0;
    while k < n
        invariant
            n == items@.len(),
            k <= n,
            views(out@) == item_texts(a.nodes@, items@.take(k as int)),
        decreases n - k,
    {
        assert(items@.take(k + 1).drop_last() =~= items@.take(k as int));
        assert(items@.take(k + 1).last() == items@[k as int]);
        match item_text_exec(a, items[k]) {
            Some(t) => {
                let ghost before = views(out@);
                let ghost tv = t@;
                out.push(t);
                assert(views(out@) =~= before.push(tv));
            },
            None => {},
        }
        k += 1;
    }
    assert(items@.take(n as int) =~= items@);
    out
}

fn field_texts_exec(a: &JsonArena, value: Option<usize>) -> (r: Vec<String>)
    ensures
        views(r@) == field_texts(a.nodes@, match value {
            Some(c) => Some(c as int),
            None => None,
        }),
{
    match value {
        None => Vec::new(),
        Some(c) => match node_ref(a, c) {
            Some(JsonNode::Str(s)) => {
                let mut v: Vec<String> = Vec::new();
                v.push(string_from(chars_of(s.as_str()).as_slice()));
                assert(views(v@) =~= seq![s@]);
                v
            },
            Some(JsonNode::Array(items)) => item_texts_exec(a, items),
            _ => {
                let v: Vec<String> = Vec::new();
                assert(views(v@) =~= Seq::<Seq<char>>::empty());
                v
            },
        },
    }
}

fn list_texts_exec(a: &JsonArena, value: Option<usize>) -> (r: Vec<String>)
    ensures
        views(r@) == match value {
            Some(c) => match node_at(a.nodes@, c as int) {
                JsonNode::Array(items) => item_texts(a.nodes@, items@),
                _ => Seq::<Seq<char>>::empty(),
            },
            None => Seq::<Seq<char>>::empty(),
        },
{
    match value {
        Some(c) => match node_ref(a, c) {
            Some(JsonNode::Array(items)) => item_texts_exec(a, items),
            _ => {
                let v: Vec<String> = Vec::new();
                assert(views(v@) =~= Seq::<Seq<char>>::empty());
                v
            },
        },
        None => {
            let v: Vec<String> = Vec::new();
            assert(views(v@) =~= Seq::<Seq<char>>::empty());
            v
        },
    }
}

fn text_field_names() -> (v: Vec<&'static str>)
    ensures
        v@.map_values(|f: &str| f@) == text_fields(),
{
    let v = vec!["text", "passage", "content", "body", "document", "segment", "answer"];
    assert(v@.map_values(|f: &str| f@) =~= text_fields());
    v
}

fn list_field_names() -> (v: Vec<&'static str>)
    ensures
        v@.map_values(|f: &str| f@) == passage_list_fields(),
{
    let v = vec!["positive_passages", "passages", "negative_passages"];
    assert(v@.map_values(|f: &str| f@) =~= passage_list_fields());
    v
}

fn id_field_names() -> (v: Vec<&'static str>)
    ensures
        v@.map_values(|f: &str| f@) == id_fields(),
{
    let v = vec!["docid", "doc_id", "document_id", "id", "_id", "qid"];
    assert(v@.map_values(|f: &str| f@) =~= id_fields());
    v
}

fn passage_id_field_names() -> (v: Vec<&'static str>)
    ensures
        v@.map_values(|f: &str| f@) == passage_id_fields(),
{
    let v = vec!["docid", "doc_id", "document_id", "id"];
    assert(v@.map_values(|f: &str| f@) =~= passage_id_fields());
    v
}

fn first_texts_exec(a: &JsonArena, i: usize, fields: &Vec<&str>, lists_only: bool) -> (r: Vec<String>)
    ensures
        views(r@) == if lists_only {
            first_list_texts(a.nodes@, i as int, fields@.map_values(|f: &str| f@))
        } else {
            first_texts(a.nodes@, i as int, fields@.map_values(|f: &str| f@))
        },
{
    let ghost fs = fields@.map_values(|f: &str| f@);
    let n = fields.len();
    let mut k: usize = 0;
    assert(fs.subrange(0, n as int) =~= fs);
    while k < n
        invariant
            n == fields@.len(),
            fs == fields@.map_values(|f: &str| f@),
            k <= n,
            lists_only ==> first_list_texts(a.nodes@, i as int, fs.subrange(k as int, n as int))
                == first_list_texts(a.nodes@, i as int, fs),
            !lists_only ==> first_texts(a.nodes@, i as int, fs.subrange(k as int, n as int))
                == first_texts(a.nodes@, i as int, fs),
        decreases n - k,
    {
        let ghost rest = fs.subrange(k as int, n as int);
        assert(rest[0] == fields@[k as int]@);
        assert(rest.drop_first() =~= fs.subrange(k + 1, n as int));
        let value = get_field(a, i, fields[k]);
        let t = if lists_only {
            list_texts_exec(a, value)
        } else {
            field_texts_exec(a, value)
        };
        if t.len() > 0 {
            return t;
        }
        k += 1;
    }
    assert(fs.subrange(n as int, n as int) =~= Seq::<Seq<char>>::empty());
    let v: Vec<String> = Vec::new();
    assert(views(v@) =~= Seq::<Seq<char>>::empty());
    v
}

fn join_spaced_exec(parts: &Vec<String>) -> (s: String)
    ensures
        s@ == join_spaced(views(parts@)),
{
    let n = parts.len();
    let mut s = String::new();
    let mut k: usize = 0;
    while k < n
        invariant
            n == parts@.len(),
            k <= n,
            s@ == join_spaced(views(parts@).take(k as int)),
        decreases n - k,
    {
        let ghost pre = views(parts@).take(k as int);
        assert(views(parts@).take(k + 1).drop_last() =~= pre);
        assert(views(parts@).take(k + 1).last() == parts@[k as int]@);
        if k > 0 {
            push_char(&mut s, ' ');
        }
        push_str(&mut s, parts[k].as_str());
        proof {
            if k == 0 {
                assert(views(parts@).take(1) =~= seq![parts@[0]@]);
                assert(s@ =~= parts@[0]@);
            }
        }
        k += 1;
    }
    assert(views(parts@).take(n as int) =~= views(parts@));
    s
}

/// Extracts the single id/text pair from one record.
pub fn extract_record(a: &JsonArena, i: usize) -> (r: Option<(String, String)>)
    ensures
        match record_pair(a.nodes@, i as int) {
            Some((id, text)) => r matches Some(p) && p.0@ == id && p.1@ == text,
            None => r is None,
        },
{
    match node_ref(a, i) {
        Some(JsonNode::Object(_)) => {},
        _ => {
            return None;
        },
    }
    let id = find_id_exec(a, i, &id_field_names());
    let direct = first_texts_exec(a, i, &text_field_names(), false);
    let texts = if direct.len() > 0 {
        direct
    } else {
        first_texts_exec(a, i, &list_field_names(), true)
    };
    let text = join_spaced_exec(&texts);
    if is_blank(text.as_str()) {
        return None;
    }
    let id_text = match id {
        Some(v) => v,
        None => String::new(),
    };
    Some((id_text, text))
}

fn passage_pairs_exec(a: &JsonArena, items: &Vec<usize>) -> (r: Vec<(String, String)>)
    ensures
        pair_views(r@) == passage_pairs(a.nodes@, items@),
{
    let ids = passage_id_field_names();
    let n = items.len();
    let mut out: Vec<(String, String)> = Vec::new();
    let mut k: usize = 0;
    while k < n
        invariant
            n == items@.len(),
            ids@.map_values(|f: &str| f@) == passage_id_fields(),
            k <= n,
            pair_views(out@) == passage_pairs(a.nodes@, items@.take(k as int)),
        decreases n - k,
    {
        assert(items@.take(k + 1).drop_last() =~= items@.take(k as int));
        assert(items@.take(k + 1).last() == items@[k as int]);
        match item_text_exec(a, items[k]) {
            Some(t) => {
                if !is_blank(t.as_str()) {
                    let id = match find_id_exec(a, items[k], &ids) {
                        Some(v) => v,
                        None => String::new(),
                    };
                    let ghost before = pair_views(out@);
                    let ghost pair = (id@, t@);
                    out.push((id, t));
                    assert(pair_views(out@) =~= before.push(pair));
                }
            },
            None => {},
        }
        k += 1;
    }
    assert(items@.take(n as int) =~= items@);
    out
}

fn all_ids_present(pairs: &Vec<(String, String)>) -> (r: bool)
    ensures
        r == all_have_ids(pair_views(pairs@)),
{
    let n = pairs.len();
    let mut k: usize = 0;
    while k < n
        invariant
            n == pairs@.len(),
            k <= n,
            forall|j: int| 0 <= j < k ==> (#[trigger] pair_views(pairs@)[j]).0.len() > 0,
        decreases n - k,
    {
        if pairs[k].0.as_str().is_empty() {
            assert(pair_views(pairs@)[k as int].0.len() == 0);
            return false;
        }
        k += 1;
    }
    true
}

/// Extracts the id/text pairs from one record, tolerating schema variants.
///
/// Records that list passages which each carry their own id expand into one
/// document per passage; every other record yields at most one pair.
pub fn extract_records(a: &JsonArena, i: usize) -> (r: Vec<(String, String)>)
    ensures
        pair_views(r@) == record_pairs(a.nodes@, i as int),
{
    match node_ref(a, i) {
        Some(JsonNode::Object(_)) => {},
        _ => {
            let v: Vec<(String, String)> = Vec::new();
            assert(pair_views(v@) =~= Seq::<(Seq<char>, Seq<char>)>::empty());
            return v;
        },
    }
    let fields = list_field_names();
    let ghost fs = passage_list_fields();
    let n = fields.len();
    let mut k: usize = 0;
    assert(fs.subrange(0, n as int) =~= fs);
    while k < n
        invariant
            n == fields@.len(),
            fs == fields@.map_values(|f: &str| f@),
            fs == passage_list_fields(),
            k <= n,
            expanded_pairs(a.nodes@, i as int, fs.subrange(k as int, n as int)) == expanded_pairs(
                a.nodes@,
                i as int,
                fs,
            ),
        decreases n - k,
    {
        let ghost rest = fs.subrange(k as int, n as int);
        assert(rest[0] == fields@[k as int]@);
        assert(rest.drop_first() =~= fs.subrange(k + 1, n as int));
        match get_field(a, i, fields[k]) {
            Some(c) => match node_ref(a, c) {
                Some(JsonNode::Array(items)) => {
                    let extracted = passage_pairs_exec(a, items);
                    if extracted.len() > 0 && all_ids_present(&extracted) {
                        return extracted;
                    }
                },
                _ => {},
            },
            None => {},
        }
        k += 1;
    }
    assert(fs.subrange(n as int, n as int) =~= Seq::<Seq<char>>::empty());
    match extract_record(a, i) {
        Some(pair) => {
            let ghost pv = (pair.0@, pair.1@);
            let mut v: Vec<(String, String)> = Vec::new();
            v.push(pair);
            assert(pair_views(v@) =~= seq![pv]);
            v
        },
        None => {
            let v: Vec<(String, String)> = Vec::new();
            assert(pair_views(v@) =~= Seq::<(Seq<char>, Seq<char>)>::empty());
            v
        },
    }
}

/// The records a top-level value holds: the items of a bare array, the
/// items of the `docs` (else `data`) array of an object, or the value
/// itself.
pub open spec fn top_items(a: Seq<JsonNode>, v: int) -> Seq<int> {
    match node_at(a, v) {
        JsonNode::Array(items) => items@.map_values(|c: usize| c as int),
        JsonNode::Object(_) => {
            let holder = match get_at(a, v, "docs"@) {
                Some(c) => Some(c),
                None => get_at(a, v, "data"@),
            };
            match holder {
                Some(c) => match node_at(a, c) {
                    JsonNode::Array(items) => items@.map_values(|c: usize| c as int),
                    _ => seq![v],
                },
                None => seq![v],
            }
        },
        _ => seq![v],
    }
}

/// The documents appended for the records `items`, when `count` documents
/// came before: a pair without an id is named `{source}-{position}`.
pub open spec fn documents_from(
    a: Seq<JsonNode>,
    items: Seq<int>,
    source: Seq<char>,
    count: nat,
) -> Seq<(Seq<char>, Seq<char>)>
    decreases items.len(),
{
    if items.len() == 0 {
        seq![]
    } else {
        let prev = documents_from(a, items.drop_last(), source, count);
        prev + named_pairs(record_pairs(a, items.last()), source, count + prev.len())
    }
}

/// `pairs` with missing ids replaced by `{source}-{position}`, positions
/// counted from `count`.
pub open spec fn named_pairs(
    pairs: Seq<(Seq<char>, Seq<char>)>,
    source: Seq<char>,
    count: nat,
) -> Seq<(Seq<char>, Seq<char>)>
    decreases pairs.len(),
{
    if pairs.len() == 0 {
        seq![]
    } else {
        let prev = named_pairs(pairs.drop_last(), source, count);
        let p = pairs.last();
        let id = if p.0.len() == 0 {
            source + seq!['-'] + padded(count + prev.len(), 10, 1)
        } else {
            p.0
        };
        prev.push((id, p.1))
    }
}

/// The id/text/source views of a document list.
pub open spec fn doc_views(v: Seq<RawDocument>) -> Seq<(Seq<char>, Seq<char>)> {
    v.map_values(|d: RawDocument| (d.id@, d.text@))
}

proof fn lemma_named_pairs_len(pairs: Seq<(Seq<char>, Seq<char>)>, source: Seq<char>, count: nat)
    ensures
        named_pairs(pairs, source, count).len() == pairs.len(),
    decreases pairs.len(),
{
    if pairs.len() > 0 {
        lemma_named_pairs_len(pairs.drop_last(), source, count);
    }
}

fn copy_indices(v: &Vec<usize>) -> (r: Vec<usize>)
    ensures
        r@ == v@,
{
    let mut r: Vec<usize> = Vec::new();
    let n = v.len();
    let mut k: usize = 0;
    while k < n
        invariant
            n == v@.len(),
            k <= n,
            r@ == v@.take(k as int),
        decreases n - k,
    {
        r.push(v[k]);
        assert(v@.take(k + 1) =~= v@.take(k as int).push(v@[k as int]));
        k += 1;
    }
    assert(v@.take(n as int) =~= v@);
    r
}

fn top_items_exec(a: &JsonArena, v: usize) -> (r: Vec<usize>)
    ensures
        r@.map_values(|c: usize| c as int) == top_items(a.nodes@, v as int),
{
    match node_ref(a, v) {
        Some(JsonNode::Array(items)) => copy_indices(items),
        Some(JsonNode::Object(_)) => {
            let holder = match get_field(a, v, "docs") {
                Some(c) => Some(c),
                None => get_field(a, v, "data"),
            };
            match holder {
                Some(c) => match node_ref(a, c) {
                    Some(JsonNode::Array(items)) => copy_indices(items),
                    _ => {
                        let r = vec![v];
                        assert(r@.map_values(|c: usize| c as int) =~= seq![v as int]);
                        r
                    },
                },
                None => {
                    let r = vec![v];
                    assert(r@.map_values(|c: usize| c as int) =~= seq![v as int]);
                    r
                },
            }
        },
        _ => {
            let r = vec![v];
            assert(r@.map_values(|c: usize| c as int) =~= seq![v as int]);
            r
        },
    }
}

/// Appends the documents that the value at `v` holds, attributed to
/// `source`; a record without an id is named `{source}-{position}`.
pub fn push_from_value(a: &JsonArena, v: usize, source: &str, documents: &mut Vec<RawDocument>)
    ensures
        final(documents)@.len() >= old(documents)@.len(),
        final(documents)@.subrange(0, old(documents)@.len() as int) == old(documents)@,
        doc_views(final(documents)@.subrange(old(documents)@.len() as int, final(documents)@.len() as int))
            == documents_from(
            a.nodes@,
            top_items(a.nodes@, v as int),
            source@,
            old(documents)@.len() as nat,
        ),
        forall|k: int|
            old(documents)@.len() <= k < final(documents)@.len() ==> (#[trigger] final(documents)@[k]).source@
                == source@,
{
    let items = top_items_exec(a, v);
    let ghost all = top_items(a.nodes@, v as int);
    let ghost start = documents@.len();
    let ghost initial = documents@;
    let n = items.len();
    let mut k: usize = 0;
    while k < n
        invariant
            n == items@.len(),
            items@.map_values(|c: usize| c as int) == all,
            k <= n,
            documents@.len() >= start,
            documents@.subrange(0, start as int) == initial,
            doc_views(documents@.subrange(start as int, documents@.len() as int)) == documents_from(
                a.nodes@,
                all.take(k as int),
                source@,
                start as nat,
            ),
            forall|j: int|
                start <= j < documents@.len() ==> (#[trigger] documents@[j]).source@ == source@,
        decreases n - k,
    {
        assert(all.take(k + 1).drop_last() =~= all.take(k as int));
        assert(all.take(k + 1).last() == items@[k as int] as int);
        let pairs = extract_records(a, items[k]);
        let ghost before_docs = documents@;
        let ghost prev = documents_from(a.nodes@, all.take(k as int), source@, start as nat);
        let ghost rp = record_pairs(a.nodes@, items@[k as int] as int);
        let m = pairs.len();
        let mut j: usize = 0;
        while j < m
            invariant
                m == pairs@.len(),
                pair_views(pairs@) == rp,
                j <= m,
                documents@.len() == before_docs.len() + j,
                documents@.subrange(0, before_docs.len() as int) == before_docs,
                before_docs.len() >= start,
                before_docs.subrange(0, start as int) == initial,
                doc_views(before_docs.subrange(start as int, before_docs.len() as int)) == prev,
                prev.len() == before_docs.len() - start,
                doc_views(documents@.subrange(before_docs.len() as int, documents@.len() as int))
                    == named_pairs(rp.take(j as int), source@, start + prev.len()),
                forall|q: int|
                    start <= q < documents@.len() ==> (#[trigger] documents@[q]).source@ == source@,
            decreases m - j,
        {
            let ghost seg_before = documents@;
            assert(pair_views(pairs@)[j as int] == (pairs@[j as int].0@, pairs@[j as int].1@));
            let ghost p = rp[j as int];
            let ghost named_prev = named_pairs(rp.take(j as int), source@, start + prev.len());
            proof {
                assert(rp.take(j + 1).drop_last() =~= rp.take(j as int));
                assert(rp.take(j + 1).last() == p);
                lemma_named_pairs_len(rp.take(j as int), source@, start + prev.len());
            }
            let (id0, text0) = (&pairs[j].0, &pairs[j].1);
            let id = if id0.as_str().is_empty() {
                let mut s = String::new();
                push_str(&mut s, source);
                push_char(&mut s, '-');
                push_padded(&mut s, documents.len() as u128, 10, 1);
                s
            } else {
                string_from(chars_of(id0.as_str()).as_slice())
            };
            let text = string_from(chars_of(text0.as_str()).as_slice());
            let ghost expected = if p.0.len() == 0 {
                source@ + seq!['-'] + padded(start + prev.len() + named_prev.len(), 10, 1)
            } else {
                p.0
            };
            assert(id@ == expected);
            assert(text@ == p.1);
            documents.push(RawDocument { id, text, source: string_from(chars_of(source).as_slice()) });
            proof {
                assert(named_pairs(rp.take(j + 1), source@, start + prev.len()) == named_prev.push(
                    (expected, p.1),
                ));
                assert(documents@.subrange(before_docs.len() as int, documents@.len() as int)
                    =~= seg_before.subrange(before_docs.len() as int, seg_before.len() as int).push(
                    documents@.last(),
                ));
                assert(doc_views(documents@.subrange(before_docs.len() as int, documents@.len() as int))
                    =~= doc_views(seg_before.subrange(before_docs.len() as int, seg_before.len() as int)).push(
                    (expected, p.1),
                ));
                assert(documents@.subrange(0, before_docs.len() as int) =~= seg_before.subrange(
                    0,
                    before_docs.len() as int,
                ));
            }
            j += 1;
        }
        proof {
            assert(rp.take(m as int) =~= rp);
            assert(documents@.subrange(start as int, documents@.len() as int) =~= before_docs.subrange(
                start as int,
                before_docs.len() as int,
            ) + documents@.subrange(before_docs.len() as int, documents@.len() as int));
            assert(doc_views(documents@.subrange(start as int, documents@.len() as int)) =~= doc_views(
                before_docs.subrange(start as int, before_docs.len() as int),
            ) + doc_views(documents@.subrange(before_docs.len() as int, documents@.len() as int)));
            assert(documents@.subrange(0, start as int) =~= before_docs.subrange(0, start as int));
        }
        k += 1;
    }
    assert(all.take(n as int) =~= all);
}

/// How the text of a corpus file is read.
#[derive(Debug, Clone, PartialEq, Eq)]
pub enum CorpusLayout {
    /// One JSON value (an array of records, or a collection object): the
    /// text without its leading white space.
    Whole(String),
    /// One JSON record per non-blank line: 1-based line numbers with the
    /// trimmed lines.
    Lines(Vec<(usize, String)>),
}

/// The lines of `s` as `str::lines` yields them: split at `\n`, without a
/// final empty line, each without one trailing `\r`.
pub open spec fn text_lines(s: Seq<char>) -> Seq<Seq<char>> {
    let segs = segments(s, '\n');
    let kept = if segs.last().len() == 0 {
        segs.drop_last()
    } else {
        segs
    };
    kept.map_values(|l: Seq<char>| if l.len() > 0 && l.last() == '\r' {
        l.drop_last()
    } else {
        l
    })
}

/// The numbered, trimmed, non-blank lines among `lines`, numbered from
/// `first`.
pub open spec fn numbered_lines(lines: Seq<Seq<char>>) -> Seq<(nat, Seq<char>)>
    decreases lines.len(),
{
    if lines.len() == 0 {
        seq![]
    } else {
        let prev = numbered_lines(lines.drop_last());
        let t = trim_seq(lines.last());
        if t.len() == 0 {
            prev
        } else {
            prev.push((lines.len(), t))
        }
    }
}

/// The views of numbered lines.
pub open spec fn line_views(v: Seq<(usize, String)>) -> Seq<(nat, Seq<char>)> {
    v.map_values(|p: (usize, String)| (p.0 as nat, p.1@))
}

fn strip_cr(l: &Vec<char>) -> (out: Vec<char>)
    ensures
        out@ == if l@.len() > 0 && l@.last() == '\r' {
            l@.drop_last()
        } else {
            l@
        },
{
    let n = l.len();
    let end = if n > 0 && l[n - 1] == '\r' {
        n - 1
    } else {
        n
    };
    let mut out: Vec<char> = Vec::new();
    let mut k: usize = 0;
    while k < end
        invariant
            end <= n,
            n == l@.len(),
            k <= end,
            out@ == l@.take(k as int),
        decreases end - k,
    {
        out.push(l[k]);
        assert(l@.take(k + 1) =~= l@.take(k as int).push(l@[k as int]));
        k += 1;
    }
    assert(l@.take(end as int) =~= (if n > 0 && l@.last() == '\r' {
        l@.drop_last()
    } else {
        l@
    }));
    out
}

/// Decides how to read a corpus file's text: as one JSON value when it
/// starts (after white space) with `[`, else line by line.
pub fn corpus_layout(raw: &str) -> (layout: CorpusLayout)
    ensures
        crate::text::trim_start_seq(raw@).len() > 0 && crate::text::trim_start_seq(raw@)[0] == '['
            ==> (layout matches CorpusLayout::Whole(t) && t@ == crate::text::trim_start_seq(raw@)),
        !(crate::text::trim_start_seq(raw@).len() > 0 && crate::text::trim_start_seq(raw@)[0]
            == '[') ==> (layout matches CorpusLayout::Lines(ls) && line_views(ls@) == numbered_lines(
            text_lines(raw@),
        )),
{
    let chars = chars_of(raw);
    let n = chars.len();
    let mut start: usize = 0;
    assert(chars@.subrange(0, n as int) =~= raw@);
    while start < n && crate::text::char_is_whitespace(chars[start])
        invariant
            n == chars@.len(),
            chars@ == raw@,
            start <= n,
            crate::text::trim_start_seq(chars@.subrange(start as int, n as int))
                == crate::text::trim_start_seq(raw@),
        decreases n - start,
    {
        let ghost rest = chars@.subrange(start as int, n as int);
        assert(rest.drop_first() =~= chars@.subrange(start + 1, n as int));
        start += 1;
    }
    let ghost rest = chars@.subrange(start as int, n as int);
    if start < n {
        assert(rest[0] == chars@[start as int]);
    }
    assert(crate::text::trim_start_seq(rest) == rest);
    if start < n && chars[start] == '[' {
        let mut t: Vec<char> = Vec::new();
        let mut k = start;
        while k < n
            invariant
                start <= k <= n,
                n == chars@.len(),
                t@ == chars@.subrange(start as int, k as int),
            decreases n - k,
        {
            t.push(chars[k]);
            assert(chars@.subrange(start as int, k + 1) =~= chars@.subrange(start as int, k as int).push(
                chars@[k as int],
            ));
            k += 1;
        }
        return CorpusLayout::Whole(string_from(t.as_slice()));
    }
    let segs = crate::settings::split_chars(chars.as_slice(), '\n');
    let ghost sv = crate::chunk::cviews(segs@);
    let m = segs.len();
    let count = if segs[m - 1].len() == 0 {
        m - 1
    } else {
        m
    };
    let ghost kept = if sv.last().len() == 0 {
        sv.drop_last()
    } else {
        sv
    };
    assert(kept.len() == count);
    let mut out: Vec<(usize, String)> = Vec::new();
    let mut k: usize = 0;
    while k < count
        invariant
            count <= m,
            m == segs@.len(),
            sv == crate::chunk::cviews(segs@),
            kept.len() == count,
            forall|q: int| 0 <= q < count ==> kept[q] == sv[q],
            text_lines(raw@) == kept.map_values(|l: Seq<char>| if l.len() > 0 && l.last() == '\r' {
                l.drop_last()
            } else {
                l
            }),
            k <= count,
            line_views(out@) == numbered_lines(text_lines(raw@).take(k as int)),
        decreases count - k,
    {
        let line = strip_cr(&segs[k]);
        let ghost lines = text_lines(raw@);
        assert(lines[k as int] == line@);
        assert(lines.take(k + 1).drop_last() =~= lines.take(k as int));
        assert(lines.take(k + 1).last() == line@);
        let t = crate::text::trim_chars(line.as_slice());
        if t.len() > 0 {
            let ghost before = line_views(out@);
            let ghost pair = ((k + 1) as nat, t@);
            out.push((k + 1, string_from(t.as_slice())));
            assert(line_views(out@) =~= before.push(pair));
        }
        k += 1;
    }
    assert(text_lines(raw@).take(count as int) =~= text_lines(raw@));
    CorpusLayout::Lines(out)
}

/// Where a record sits: `{source}:{line_number}`.
pub fn record_location(source: &str, line_number: usize) -> (s: String)
    ensures
        s@ == source@ + seq![':'] + padded(line_number as nat, 10, 1),
{
    let mut s = String::new();
    push_str(&mut s, source);
    push_char(&mut s, ':');
    push_padded(&mut s, line_number as u128, 10, 1);
    s
}

/// A parsed JSON value of `serde_json`.
#[verifier::external_type_specification]
#[verifier::external_body]
pub struct ExJsonValue(serde_json::Value);

/// What `serde_json` parses the text `text` to, laid out as an arena (root
/// first, children after their parent, object members in the parser's
/// order): `None` when it rejects the text.
pub uninterp spec fn json_parse(text: Seq<char>) -> Option<Seq<JsonNode>>;

/// `serde_json::from_str::<serde_json::Value>` on `text`, laid out as an
/// arena. The arena is the named parse of `text`; the error carries the
/// parser's message, whose wording is not stated.
#[verifier::external_body]
fn parse_json(text: &str) -> (r: Result<JsonArena, String>)
    ensures
        match json_parse(text@) {
            Some(nodes) => r matches Ok(a) && a.nodes@ == nodes,
            None => r is Err,
        },
{
    match serde_json::from_str::<serde_json::Value>(text) {
        Ok(value) => {
            let mut nodes = Vec::new();
            lay_out(&value, &mut nodes);
            Ok(JsonArena { nodes })
        },
        Err(e) => Err(e.to_string()),
    }
}

/// Appends `value` and its descendants to `nodes`, each node before its
/// children, and returns the position of `value`'s node; a conversion of
/// `serde_json::Value`, one variant to one node.
#[verifier::external_body]
fn lay_out(value: &serde_json::Value, nodes: &mut Vec<JsonNode>) -> usize {
    let at = nodes.len();
    nodes.push(JsonNode::Null);
    let node = match value {
        serde_json::Value::Null => JsonNode::Null,
        serde_json::Value::Bool(b) => JsonNode::Bool(*b),
        serde_json::Value::Number(n) => JsonNode::Number(n.as_i64()),
        serde_json::Value::String(t) => JsonNode::Str(t.clone()),
        serde_json::Value::Array(items) => JsonNode::Array(items.iter().map(|i| lay_out(i, nodes)).collect()),
        serde_json::Value::Object(map) => JsonNode::Object(map.iter().map(|(k, i)| (k.clone(), lay_out(i, nodes))).collect()),
    };
    nodes[at] = node;
    at
}

/// The text of a corpus file is one JSON value: after leading white space
/// it starts with `[`.
pub open spec fn is_whole(raw: Seq<char>) -> bool {
    crate::text::trim_start_seq(raw).len() > 0 && crate::text::trim_start_seq(raw)[0] == '['
}

/// The position of the first line among `lines` whose text does not parse.
pub open spec fn first_unparsed(lines: Seq<(nat, Seq<char>)>) -> Option<int>
    decreases lines.len(),
{
    if lines.len() == 0 {
        None
    } else {
        match first_unparsed(lines.drop_last()) {
            Some(i) => Some(i),
            None => if json_parse(lines.last().1) is None {
                Some(lines.len() - 1)
            } else {
                None
            },
        }
    }
}

/// The documents of the parsed lines `lines`, line after line.
pub open spec fn line_documents(lines: Seq<(nat, Seq<char>)>, source: Seq<char>) -> Seq<
    (Seq<char>, Seq<char>),
>
    decreases lines.len(),
{
    if lines.len() == 0 {
        seq![]
    } else {
        let prev = line_documents(lines.drop_last(), source);
        let nodes = json_parse(lines.last().1).unwrap();
        prev + documents_from(nodes, top_items(nodes, 0), source, prev.len())
    }
}

/// Parses the text of one corpus file attributed to `source`: one JSON
/// value (an array of records, or a collection object) when the text
/// starts with `[`, else one JSON record per non-blank line.
///
/// # Errors
/// [`OreoError::Corpus`] when the value, or a line, does not parse: located
/// at `source` for a whole-file value, at `{source}:{line}` for the first
/// line that does not parse.
pub fn parse_records(raw: &str, source: &str) -> (r: Result<Vec<RawDocument>, OreoError>)
    ensures
        is_whole(raw@) ==> match json_parse(crate::text::trim_start_seq(raw@)) {
            None => r matches Err(OreoError::Corpus { location, .. }) && location@ == source@,
            Some(nodes) => r matches Ok(d) && doc_views(d@) == documents_from(
                nodes,
                top_items(nodes, 0),
                source@,
                0,
            ),
        },
        !is_whole(raw@) ==> ({
            let ls = numbered_lines(text_lines(raw@));
            match first_unparsed(ls) {
                Some(i) => r matches Err(OreoError::Corpus { location, .. }) && location@ == source@
                    + seq![':'] + padded(ls[i].0, 10, 1),
                None => r matches Ok(d) && doc_views(d@) == line_documents(ls, source@),
            }
        }),
        r matches Ok(d) ==> forall|k: int| 0 <= k < d@.len() ==> (#[trigger] d@[k]).source@ == source@,
{
    let mut documents: Vec<RawDocument> = Vec::new();
    match corpus_layout(raw) {
        CorpusLayout::Whole(text) => {
            match parse_json(text.as_str()) {
                Ok(a) => {
                    push_from_value(&a, 0, source, &mut documents);
                    assert(documents@.subrange(0, documents@.len() as int) =~= documents@);
                    Ok(documents)
                },
                Err(message) => Err(
                    OreoError::Corpus { location: string_from(chars_of(source).as_slice()), message },
                ),
            }
        },
        CorpusLayout::Lines(lines) => {
            let ghost ls = line_views(lines@);
            let n = lines.len();
            let mut k: usize = 0;
            while k < n
                invariant
                    n == lines@.len(),
                    ls == line_views(lines@),
                    !is_whole(raw@),
                    ls == numbered_lines(text_lines(raw@)),
                    k <= n,
                    first_unparsed(ls.take(k as int)) is None,
                    doc_views(documents@) == line_documents(ls.take(k as int), source@),
                    forall|j: int| 0 <= j < documents@.len() ==> (#[trigger] documents@[j]).source@
                        == source@,
                decreases n - k,
            {
                let ghost pre = ls.take(k as int);
                assert(ls.take(k + 1).drop_last() =~= pre);
                assert(ls.take(k + 1).last() == ls[k as int]);
                let (number, line) = (lines[k].0, &lines[k].1);
                assert(ls[k as int] == (number as nat, line@));
                match parse_json(line.as_str()) {
                    Ok(a) => {
                        let ghost before = documents@;
                        push_from_value(&a, 0, source, &mut documents);
                        assert(documents@.subrange(0, before.len() as int) == before);
                        assert forall|j: int| 0 <= j < documents@.len() implies (
                        #[trigger] documents@[j]).source@ == source@ by {
                            if j < before.len() {
                                assert(documents@[j] == documents@.subrange(0, before.len() as int)[j]);
                            }
                        }
                        assert(doc_views(documents@) =~= doc_views(before) + doc_views(
                            documents@.subrange(before.len() as int, documents@.len() as int),
                        ));
                    },
                    Err(message) => {
                        proof {
                            lemma_first_unparsed_at(ls, k as int);
                        }
                        return Err(
                            OreoError::Corpus { location: record_location(source, number), message },
                        );
                    },
                }
                k += 1;
            }
            assert(ls.take(n as int) =~= ls);
            Ok(documents)
        },
    }
}

proof fn lemma_first_unparsed_at(ls: Seq<(nat, Seq<char>)>, k: int)
    requires
        0 <= k < ls.len(),
        first_unparsed(ls.take(k)) is None,
        json_parse(ls[k].1) is None,
    ensures
        first_unparsed(ls) == Some(k),
    decreases ls.len() - k,
{
    if k == ls.len() - 1 {
        assert(ls.drop_last() =~= ls.take(k));
    } else {
        assert(ls.drop_last().take(k) =~= ls.take(k));
        assert(ls.drop_last()[k] == ls[k]);
        lemma_first_unparsed_at(ls.drop_last(), k);
    }
}

} // verus!
