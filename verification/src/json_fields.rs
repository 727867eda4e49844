use vstd::prelude::*;
use crate::strutil::{chars_of, str_eq};
use crate::collections::{split_chars, spec_split};
use crate::autocomplete::{candidate_matches, spec_candidate_matches, concat_bytes, at_char_start, spec_at_char_start, spec_colon_space, spec_pairs};
use crate::strutil::bytes_of;
use crate::vim_buffer::copy_range;
use vstd::utf8::encode_utf8;

verus! {

/// The shape of a JSON response as field completion sees it: an object
/// with its fields in order, an array with the shape of its elements, or
/// any other value; each with the label completion shows for it.
#[derive(Debug)]
pub enum JsonType {
    Object(Vec<(String, JsonType)>, String),
    Array(Box<JsonType>, String),
    Other(String),
}

/// The label shown for a shape.
pub open spec fn spec_label(t: JsonType) -> Seq<char> {
    match t {
        JsonType::Object(_, l) => l@,
        JsonType::Array(_, l) => l@,
        JsonType::Other(l) => l@,
    }
}

/// The index of the first field named `name`.
pub open spec fn spec_field_index(fields: Seq<(String, JsonType)>, name: Seq<char>) -> Option<int> {
    if exists|i: int| 0 <= i < fields.len() && (#[trigger] fields[i]).0@ == name {
        Some(choose|i: int| 0 <= i < fields.len() && (#[trigger] fields[i]).0@ == name
            && forall|k: int| 0 <= k < i ==> (#[trigger] fields[k]).0@ != name)
    } else {
        None
    }
}

/// The text of a path segment before its first `[`.
pub open spec fn spec_field_name(seg: Seq<char>) -> Seq<char> {
    if exists|i: int| 0 <= i < seg.len() && seg[i] == '[' {
        seg.subrange(0, choose|i: int| 0 <= i < seg.len() && seg[i] == '[' && forall|k: int| 0 <= k < i ==> seg[k] != '[')
    } else {
        seg
    }
}

/// One step down a path segment: an empty segment stays; `[..]` enters
/// an array's elements; `name` (or `name[..]`, which then enters the
/// elements of an array found there) takes that field of an object; on an
/// array, a field name first enters the elements and then, when they are
/// objects, takes the field. `None` where the shape has no such part.
pub open spec fn spec_type_step(t: JsonType, seg: Seq<char>) -> Option<JsonType> {
    if seg.len() == 0 {
        Some(t)
    } else if seg[0] == '[' {
        match t {
            JsonType::Array(inner, _) => Some(*inner),
            _ => None,
        }
    } else {
        let name = spec_field_name(seg);
        let has_index = exists|i: int| 0 <= i < seg.len() && seg[i] == '[';
        match t {
            JsonType::Object(fields, _) => match spec_field_index(fields@, name) {
                Some(i) => {
                    let ft = fields@[i].1;
                    if has_index {
                        match ft {
                            JsonType::Array(inner, _) => Some(*inner),
                            _ => Some(ft),
                        }
                    } else {
                        Some(ft)
                    }
                },
                None => None,
            },
            JsonType::Array(inner, _) => match *inner {
                JsonType::Object(fields, _) => match spec_field_index(fields@, name) {
                    Some(i) => Some(fields@[i].1),
                    None => None,
                },
                other => Some(other),
            },
            JsonType::Other(_) => None,
        }
    }
}

/// The shape found by following `segs` from `t`, segment by segment.
pub open spec fn spec_navigate(t: JsonType, segs: Seq<Seq<char>>) -> Option<JsonType>
    decreases segs.len(),
{
    if segs.len() == 0 {
        Some(t)
    } else {
        match spec_type_step(t, segs[0]) {
            Some(n) => spec_navigate(n, segs.drop_first()),
            None => None,
        }
    }
}

fn field_index(fields: &Vec<(String, JsonType)>, name: &str) -> (r: Option<usize>)
    ensures
        r.is_some() == spec_field_index(fields@, name@).is_some(),
        r matches Some(i) ==> i as int == spec_field_index(fields@, name@).unwrap() && i < fields@.len(),
{
    let mut i: usize = 0;
    while i < fields.len()
        invariant
            i <= fields@.len(),
            forall|k: int| 0 <= k < i ==> (#[trigger] fields@[k]).0@ != name@,
        decreases fields@.len() - i,
    {
        if str_eq(fields[i].0.as_str(), name) {
            proof {
                let j = spec_field_index(fields@, name@).unwrap();
                assert(fields@[i as int].0@ == name@);
                if j != i {
                    if j < i {
                        assert(fields@[j].0@ != name@);
                    } else {
                        assert(fields@[i as int].0@ != name@);
                    }
                }
            }
            return Some(i);
        }
        i = i + 1;
    }
    None
}

/// The text of `seg` before its first `[`, and whether it holds one.
fn split_field_name(seg: &Vec<char>) -> (r: (Vec<char>, bool))
    ensures
        r.0@ == spec_field_name(seg@),
        r.1 == exists|i: int| 0 <= i < seg@.len() && seg@[i] == '[',
{
    let mut out: Vec<char> = Vec::new();
    let mut i: usize = 0;
    while i < seg.len()
        invariant
            i <= seg@.len(),
            out@ == seg@.subrange(0, i as int),
            forall|k: int| 0 <= k < i ==> seg@[k] != '[',
        decreases seg@.len() - i,
    {
        if seg[i] == '[' {
            proof {
                let j = choose|j: int| 0 <= j < seg@.len() && seg@[j] == '[' && forall|k: int| 0 <= k < j ==> seg@[k] != '[';
                assert(seg@[i as int] == '[');
                if j != i {
                    if j < i {
                        assert(seg@[j] != '[');
                    } else {
                        assert(seg@[i as int] != '[');
                    }
                }
            }
            return (out, true);
        }
        out.push(seg[i]);
        i = i + 1;
        proof {
            assert(out@ =~= seg@.subrange(0, i as int));
        }
    }
    proof {
        assert(out@ =~= seg@);
    }
    (out, false)
}

/// One step down a path segment (see [`spec_type_step`]).
fn type_step<'a>(t: &'a JsonType, seg: &Vec<char>) -> (r: Option<&'a JsonType>)
    ensures
        r.is_some() == spec_type_step(*t, seg@).is_some(),
        r matches Some(n) ==> *n == spec_type_step(*t, seg@).unwrap(),
{
    if seg.len() == 0 {
        return Some(t);
    }
    if seg[0] == '[' {
        return match t {
            JsonType::Array(inner, _) => Some(&**inner),
            _ => None,
        };
    }
    let (name_chars, has_index) = split_field_name(seg);
    let name = crate::strutil::string_from_chars(name_chars.as_slice());
    match t {
        JsonType::Object(fields, _) => match field_index(fields, name.as_str()) {
            Some(i) => {
                let ft = &fields[i].1;
                if has_index {
                    match ft {
                        JsonType::Array(inner, _) => Some(&**inner),
                        _ => Some(ft),
                    }
                } else {
                    Some(ft)
                }
            },
            None => None,
        },
        JsonType::Array(inner, _) => match &**inner {
            JsonType::Object(fields, _) => match field_index(fields, name.as_str()) {
                Some(i) => Some(&fields[i].1),
                None => None,
            },
            other => Some(other),
        },
        JsonType::Other(_) => None,
    }
}

/// Follow the path segments `segs` down the shape `root` (see
/// [`spec_navigate`]), as completion does for the fields typed so far.
pub fn navigate_type<'a>(root: &'a JsonType, segs: &Vec<Vec<char>>) -> (r: Option<&'a JsonType>)
    ensures
        r.is_some() == spec_navigate(*root, spec_segs(segs@)).is_some(),
        r matches Some(n) ==> *n == spec_navigate(*root, spec_segs(segs@)).unwrap(),
{
    let mut cur: &JsonType = root;
    let mut i: usize = 0;
    proof {
        assert(spec_segs(segs@).subrange(0, segs@.len() as int) =~= spec_segs(segs@));
    }
    while i < segs.len()
        invariant
            i <= segs@.len(),
            spec_navigate(*root, spec_segs(segs@)) == spec_navigate(*cur, spec_segs(segs@).subrange(i as int, segs@.len() as int)),
        decreases segs@.len() - i,
    {
        let ghost rest = spec_segs(segs@).subrange(i as int, segs@.len() as int);
        proof {
            assert(rest[0] == segs@[i as int]@);
            assert(rest.drop_first() =~= spec_segs(segs@).subrange(i + 1, segs@.len() as int));
        }
        match type_step(cur, &segs[i]) {
            Some(n) => {
                cur = n;
            },
            None => {
                return None;
            },
        }
        i = i + 1;
    }
    proof {
        assert(spec_segs(segs@).subrange(i as int, segs@.len() as int) =~= Seq::<Seq<char>>::empty());
    }
    Some(cur)
}

/// The views of path segments.
pub open spec fn spec_segs(v: Seq<Vec<char>>) -> Seq<Seq<char>> {
    Seq::new(v.len(), |i: int| v[i]@)
}

/// The path typed after `{{@name.` cut at its dots (`str::split`): all
/// segments but the last are followed, the last is being typed.
pub fn split_path(path: &str) -> (r: Vec<Vec<char>>)
    ensures
        spec_segs(r@) == spec_split(path@, '.'),
{
    let cs = chars_of(path);
    let r = split_chars(&cs, '.');
    proof {
        assert(spec_segs(r@) =~= spec_split(path@, '.'));
    }
    r
}

/// The suggestion for field `key` of shape `v` when `prefix` is being
/// typed: `key: label`, and the key after the typed bytes.
pub open spec fn spec_field_item(key: Seq<char>, v: JsonType, prefix: Seq<char>) -> (Seq<u8>, Seq<u8>) {
    let k = encode_utf8(key);
    (k + spec_colon_space() + encode_utf8(spec_label(v)), k.subrange(encode_utf8(prefix).len() as int, k.len() as int))
}

/// The suggestions for the fields of an object offered for `prefix`.
pub open spec fn spec_object_items(fields: Seq<(String, JsonType)>, prefix: Seq<char>) -> Seq<(Seq<u8>, Seq<u8>)>
    decreases fields.len(),
{
    if fields.len() == 0 {
        Seq::empty()
    } else {
        let rest = spec_object_items(fields.drop_last(), prefix);
        if spec_candidate_matches(fields.last().0@, prefix) {
            rest.push(spec_field_item(fields.last().0@, fields.last().1, prefix))
        } else {
            rest
        }
    }
}

/// The lines listing the fields of an array's element objects: each
/// field, indented, with the key after the typed bytes (all of it when the
/// key is shorter).
pub open spec fn spec_element_items(fields: Seq<(String, JsonType)>, prefix: Seq<char>) -> Seq<(Seq<u8>, Seq<u8>)>
    decreases fields.len(),
{
    if fields.len() == 0 {
        Seq::empty()
    } else {
        let k = encode_utf8(fields.last().0@);
        let p = encode_utf8(prefix).len() as int;
        let cut = if p <= k.len() { p } else { k.len() as int };
        spec_element_items(fields.drop_last(), prefix).push((
            encode_utf8("  "@) + k + spec_colon_space() + encode_utf8(spec_label(fields.last().1)),
            k.subrange(cut, k.len() as int),
        ))
    }
}

/// What completion lists under a shape for the field being typed: an
/// object's matching fields; for an array, how to index it and, for
/// arrays of objects, their fields; for anything else, that it has none.
pub open spec fn spec_shape_items(t: JsonType, prefix: Seq<char>) -> Seq<(Seq<u8>, Seq<u8>)> {
    match t {
        JsonType::Object(fields, _) => spec_object_items(fields@, prefix),
        JsonType::Array(inner, _) => seq![(
            encode_utf8("\u{26a0} Array of "@) + encode_utf8(spec_label(*inner)) + encode_utf8(" \u{2014} use [index]"@),
            encode_utf8("[0]"@),
        )] + match *inner {
            JsonType::Object(fields, _) => seq![(encode_utf8("\u{2500}\u{2500} after [index]: \u{2500}\u{2500}"@), Seq::<u8>::empty())]
                + spec_element_items(fields@, prefix),
            _ => Seq::empty(),
        },
        JsonType::Other(l) => seq![(encode_utf8("(type: "@) + encode_utf8(l@) + encode_utf8(", no sub-fields)"@), Seq::<u8>::empty())],
    }
}

/// The suggestions for the field path `path` (the text typed after
/// `{{@name.`) in a response of shape `root`: the path up to its last dot
/// is followed, the rest is being typed.
pub open spec fn spec_field_suggestions(root: JsonType, path: Seq<char>) -> Seq<(Seq<u8>, Seq<u8>)> {
    let segs = spec_split(path, '.');
    match spec_navigate(root, segs.drop_last()) {
        None => seq![(encode_utf8("(field not found)"@), Seq::<u8>::empty())],
        Some(t) => {
            let items = spec_shape_items(t, segs.last());
            if items.len() == 0 { seq![(encode_utf8("(no fields available)"@), Seq::<u8>::empty())] } else { items }
        },
    }
}

/// The keys of a shape can be cut where its suggestions cut them: after
/// the typed bytes in an offered object key (which is that long), at the
/// smaller of the two lengths in an array element's key.
pub open spec fn spec_shape_cuttable(t: JsonType, prefix: Seq<char>) -> bool {
    match t {
        JsonType::Object(fields, _) => spec_object_cuttable(fields@, prefix),
        JsonType::Array(inner, _) => match *inner {
            JsonType::Object(fields, _) => spec_elements_cuttable(fields@, prefix),
            _ => true,
        },
        JsonType::Other(_) => true,
    }
}

/// The shape `path` leads to can be cut where its suggestions cut it.
pub open spec fn spec_path_cuttable(root: JsonType, path: Seq<char>) -> bool {
    let segs = spec_split(path, '.');
    spec_navigate(root, segs.drop_last()) matches Some(t) ==> spec_shape_cuttable(t, segs.last())
}

fn label_bytes(t: &JsonType) -> (r: Vec<u8>)
    ensures
        r@ == encode_utf8(spec_label(*t)),
{
    match t {
        JsonType::Object(_, l) => bytes_of(l.as_str()),
        JsonType::Array(_, l) => bytes_of(l.as_str()),
        JsonType::Other(l) => bytes_of(l.as_str()),
    }
}

fn object_items(fields: &Vec<(String, JsonType)>, prefix: &str, out: &mut Vec<(Vec<u8>, Vec<u8>)>)
    requires
        forall|i: int| 0 <= i < fields@.len() && spec_candidate_matches((#[trigger] fields@[i]).0@, prefix@) ==>
            encode_utf8(prefix@).len() <= encode_utf8(fields@[i].0@).len(),
    ensures
        spec_pairs(final(out)@) == spec_pairs(old(out)@) + spec_object_items(fields@, prefix@),
{
    let p = bytes_of(prefix);
    let sep: Vec<u8> = vec![58u8, 32u8];
    proof {
        assert(sep@ =~= spec_colon_space());
    }
    let ghost base = spec_pairs(out@);
    let mut i: usize = 0;
    while i < fields.len()
        invariant
            i <= fields@.len(),
            p@ == encode_utf8(prefix@),
            sep@ == spec_colon_space(),
            forall|j: int| 0 <= j < fields@.len() && spec_candidate_matches((#[trigger] fields@[j]).0@, prefix@) ==>
                encode_utf8(prefix@).len() <= encode_utf8(fields@[j].0@).len(),
            spec_pairs(out@) == base + spec_object_items(fields@.subrange(0, i as int), prefix@),
        decreases fields@.len() - i,
    {
        proof {
            assert(fields@.subrange(0, i + 1).drop_last() =~= fields@.subrange(0, i as int));
        }
        if candidate_matches(fields[i].0.as_str(), prefix) {
            let k = bytes_of(fields[i].0.as_str());
            let head = concat_bytes(k.as_slice(), sep.as_slice());
            let lb = label_bytes(&fields[i].1);
            let label = concat_bytes(head.as_slice(), lb.as_slice());
            let insert = copy_range(k.as_slice(), p.len(), k.len());
            let ghost before = out@;
            out.push((label, insert));
            proof {
                assert(spec_pairs(out@) =~= spec_pairs(before).push((label@, insert@)));
            }
        }
        i = i + 1;
    }
    proof {
        assert(fields@.subrange(0, i as int) =~= fields@);
    }
}

fn element_items(fields: &Vec<(String, JsonType)>, prefix: &str, out: &mut Vec<(Vec<u8>, Vec<u8>)>)
    ensures
        spec_pairs(final(out)@) == spec_pairs(old(out)@) + spec_element_items(fields@, prefix@),
{
    let p = bytes_of(prefix);
    let sep: Vec<u8> = vec![58u8, 32u8];
    let indent = bytes_of("  ");
    proof {
        assert(sep@ =~= spec_colon_space());
    }
    let ghost base = spec_pairs(out@);
    let mut i: usize = 0;
    while i < fields.len()
        invariant
            i <= fields@.len(),
            p@ == encode_utf8(prefix@),
            sep@ == spec_colon_space(),
            indent@ == encode_utf8("  "@),
            spec_pairs(out@) == base + spec_element_items(fields@.subrange(0, i as int), prefix@),
        decreases fields@.len() - i,
    {
        proof {
            assert(fields@.subrange(0, i + 1).drop_last() =~= fields@.subrange(0, i as int));
        }
        let k = bytes_of(fields[i].0.as_str());
        let a = concat_bytes(indent.as_slice(), k.as_slice());
        let b = concat_bytes(a.as_slice(), sep.as_slice());
        let lb = label_bytes(&fields[i].1);
        let label = concat_bytes(b.as_slice(), lb.as_slice());
        let cut = if p.len() <= k.len() { p.len() } else { k.len() };
        let insert = copy_range(k.as_slice(), cut, k.len());
        let ghost before = out@;
        out.push((label, insert));
        proof {
            assert(spec_pairs(out@) =~= spec_pairs(before).push((label@, insert@)));
        }
        i = i + 1;
    }
    proof {
        assert(fields@.subrange(0, i as int) =~= fields@);
    }
}

fn one_item(label: Vec<u8>, insert: Vec<u8>) -> (r: Vec<(Vec<u8>, Vec<u8>)>)
    ensures
        spec_pairs(r@) == seq![(label@, insert@)],
{
    let mut v: Vec<(Vec<u8>, Vec<u8>)> = Vec::new();
    v.push((label, insert));
    proof {
        assert(spec_pairs(v@) =~= seq![(label@, insert@)]);
    }
    v
}

fn shape_items(t: &JsonType, prefix: &str) -> (r: Vec<(Vec<u8>, Vec<u8>)>)
    requires
        spec_shape_cuttable(*t, prefix@),
    ensures
        spec_pairs(r@) == spec_shape_items(*t, prefix@),
{
    match t {
        JsonType::Object(fields, _) => {
            let mut out: Vec<(Vec<u8>, Vec<u8>)> = Vec::new();
            proof {
                assert(spec_pairs(out@) =~= Seq::<(Seq<u8>, Seq<u8>)>::empty());
            }
            object_items(fields, prefix, &mut out);
            proof {
                assert(Seq::<(Seq<u8>, Seq<u8>)>::empty() + spec_object_items(fields@, prefix@) =~= spec_object_items(fields@, prefix@));
            }
            out
        },
        JsonType::Array(inner, _) => {
            let a = bytes_of("\u{26a0} Array of ");
            let lb = label_bytes(&**inner);
            let b = bytes_of(" \u{2014} use [index]");
            let ab = concat_bytes(a.as_slice(), lb.as_slice());
            let label = concat_bytes(ab.as_slice(), b.as_slice());
            let mut out = one_item(label, bytes_of("[0]"));
            let ghost head = spec_pairs(out@);
            match &**inner {
                JsonType::Object(fields, _) => {
                    let sep_line = bytes_of("\u{2500}\u{2500} after [index]: \u{2500}\u{2500}");
                    let ghost before = out@;
                    out.push((sep_line, Vec::new()));
                    proof {
                        assert(spec_pairs(out@) =~= spec_pairs(before).push((sep_line@, Seq::<u8>::empty())));
                    }
                    element_items(fields, prefix, &mut out);
                    proof {
                        assert(spec_pairs(out@) =~= head + (seq![(encode_utf8("\u{2500}\u{2500} after [index]: \u{2500}\u{2500}"@), Seq::<u8>::empty())]
                            + spec_element_items(fields@, prefix@)));
                    }
                },
                _ => {
                    proof {
                        assert(head + Seq::<(Seq<u8>, Seq<u8>)>::empty() =~= head);
                    }
                },
            }
            out
        },
        JsonType::Other(l) => {
            let a = bytes_of("(type: ");
            let lb = bytes_of(l.as_str());
            let b = bytes_of(", no sub-fields)");
            let ab = concat_bytes(a.as_slice(), lb.as_slice());
            let label = concat_bytes(ab.as_slice(), b.as_slice());
            one_item(label, Vec::new())
        },
    }
}

/// The completion lines for the field path `path` typed after
/// `{{@name.` in a response of shape `root` (see
/// [`spec_field_suggestions`]).
pub fn field_suggestions(root: &JsonType, path: &str) -> (r: Vec<(Vec<u8>, Vec<u8>)>)
    requires
        spec_path_cuttable(*root, path@),
    ensures
        spec_pairs(r@) == spec_field_suggestions(*root, path@),
{
    let segs = split_path(path);
    let n = segs.len();
    proof {
        crate::collections::lemma_split_nonempty(path@, '.');
        assert(spec_segs(segs@).len() == segs@.len());
    }
    let mut front: Vec<Vec<char>> = Vec::new();
    let mut i: usize = 0;
    while i + 1 < n
        invariant
            n == segs@.len(),
            n >= 1,
            i + 1 <= n,
            front@.len() == i,
            forall|k: int| 0 <= k < i ==> (#[trigger] front@[k])@ == segs@[k]@,
        decreases n - i,
    {
        front.push(copy_chars(&segs[i]));
        i = i + 1;
    }
    proof {
        assert(spec_segs(front@) =~= spec_split(path@, '.').drop_last());
    }
    match navigate_type(root, &front) {
        None => one_item(bytes_of("(field not found)"), Vec::new()),
        Some(t) => {
            let last = crate::strutil::string_from_chars(segs[n - 1].as_slice());
            proof {
                assert(last@ == spec_split(path@, '.').last());
            }
            let items = shape_items(t, last.as_str());
            if items.len() == 0 {
                one_item(bytes_of("(no fields available)"), Vec::new())
            } else {
                items
            }
        },
    }
}

fn copy_chars(v: &Vec<char>) -> (r: Vec<char>)
    ensures
        r@ == v@,
{
    let mut out: Vec<char> = Vec::new();
    let mut i: usize = 0;
    while i < v.len()
        invariant
            i <= v@.len(),
            out@ == v@.subrange(0, i as int),
        decreases v@.len() - i,
    {
        out.push(v[i]);
        i = i + 1;
        proof {
            assert(out@ =~= v@.subrange(0, i as int));
        }
    }
    proof {
        assert(out@ =~= v@);
    }
    out
}

/// Every offered key is at least as long as the typed bytes and can be
/// cut after them.
pub open spec fn spec_object_cuttable(fields: Seq<(String, JsonType)>, prefix: Seq<char>) -> bool {
    let p = encode_utf8(prefix).len() as int;
    forall|i: int| 0 <= i < fields.len() && spec_candidate_matches((#[trigger] fields[i]).0@, prefix) ==> {
        let k = encode_utf8(fields[i].0@);
        p <= k.len() && spec_at_char_start(k, p)
    }
}

/// Every key can be cut after the typed bytes (or at its end).
pub open spec fn spec_elements_cuttable(fields: Seq<(String, JsonType)>, prefix: Seq<char>) -> bool {
    let p = encode_utf8(prefix).len() as int;
    forall|i: int| 0 <= i < fields.len() ==> {
        let k = encode_utf8((#[trigger] fields[i]).0@);
        spec_at_char_start(k, if p <= k.len() { p } else { k.len() as int })
    }
}

fn object_cuttable(fields: &Vec<(String, JsonType)>, prefix: &str) -> (r: bool)
    ensures
        r == spec_object_cuttable(fields@, prefix@),
{
    let p = bytes_of(prefix);
    let mut i: usize = 0;
    while i < fields.len()
        invariant
            i <= fields@.len(),
            p@ == encode_utf8(prefix@),
            forall|j: int| 0 <= j < i && spec_candidate_matches((#[trigger] fields@[j]).0@, prefix@) ==> {
                let k = encode_utf8(fields@[j].0@);
                p@.len() <= k.len() && spec_at_char_start(k, p@.len() as int)
            },
        decreases fields@.len() - i,
    {
        if candidate_matches(fields[i].0.as_str(), prefix) {
            let k = bytes_of(fields[i].0.as_str());
            if p.len() > k.len() || !at_char_start(k.as_slice(), p.len()) {
                proof {
                    assert(k@ == encode_utf8(fields@[i as int].0@));
                }
                return false;
            }
        }
        i = i + 1;
    }
    true
}

fn elements_cuttable(fields: &Vec<(String, JsonType)>, prefix: &str) -> (r: bool)
    ensures
        r == spec_elements_cuttable(fields@, prefix@),
{
    let p = bytes_of(prefix);
    let mut i: usize = 0;
    while i < fields.len()
        invariant
            i <= fields@.len(),
            p@ == encode_utf8(prefix@),
            forall|j: int| 0 <= j < i ==> {
                let k = encode_utf8((#[trigger] fields@[j]).0@);
                spec_at_char_start(k, if p@.len() <= k.len() { p@.len() as int } else { k.len() as int })
            },
        decreases fields@.len() - i,
    {
        let k = bytes_of(fields[i].0.as_str());
        let cut = if p.len() <= k.len() { p.len() } else { k.len() };
        if !at_char_start(k.as_slice(), cut) {
            proof {
                assert(k@ == encode_utf8(fields@[i as int].0@));
            }
            return false;
        }
        i = i + 1;
    }
    true
}

fn shape_cuttable(t: &JsonType, prefix: &str) -> (r: bool)
    ensures
        r == spec_shape_cuttable(*t, prefix@),
{
    match t {
        JsonType::Object(fields, _) => object_cuttable(fields, prefix),
        JsonType::Array(inner, _) => match &**inner {
            JsonType::Object(fields, _) => elements_cuttable(fields, prefix),
            _ => true,
        },
        JsonType::Other(_) => true,
    }
}

/// Field-path suggestions where every cut they make falls between
/// characters and within the key; `None` when one would not.
pub fn field_suggestions_checked(root: &JsonType, path: &str) -> (r: Option<Vec<(Vec<u8>, Vec<u8>)>>)
    ensures
        r.is_some() <==> spec_path_cuttable(*root, path@),
        r matches Some(items) ==> spec_pairs(items@) == spec_field_suggestions(*root, path@),
{
    let segs = split_path(path);
    let n = segs.len();
    proof {
        crate::collections::lemma_split_nonempty(path@, '.');
    }
    let mut front: Vec<Vec<char>> = Vec::new();
    let mut i: usize = 0;
    while i + 1 < n
        invariant
            n == segs@.len(),
            n >= 1,
            i + 1 <= n,
            front@.len() == i,
            forall|k: int| 0 <= k < i ==> (#[trigger] front@[k])@ == segs@[k]@,
        decreases n - i,
    {
        front.push(copy_chars(&segs[i]));
        i = i + 1;
    }
    proof {
        assert(spec_segs(front@) =~= spec_split(path@, '.').drop_last());
    }
    match navigate_type(root, &front) {
        None => Some(field_suggestions(root, path)),
        Some(t) => {
            let last = crate::strutil::string_from_chars(segs[n - 1].as_slice());
            proof {
                assert(last@ == spec_split(path@, '.').last());
            }
            if shape_cuttable(t, last.as_str()) {
                Some(field_suggestions(root, path))
            } else {
                None
            }
        },
    }
}

} // verus!
