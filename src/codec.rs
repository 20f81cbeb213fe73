//! The manifest's text form: a JSON object with the fields `st_pairs`,
//! `cache_dirs` and `ignore`.
use crate::json::{json_parses, json_quoted, json_value_of, parse_json, quote, Json};
use crate::manifest::{entries_map, entries_view, insert_entry, keys_unique, strings_view, EntryModel, Syncfile};
use vstd::prelude::*;
use vstd::string::StringExecFns;

verus! {

/// Why a manifest could not be read or written.
#[derive(Debug, PartialEq, Eq)]
pub enum ManifestError {
    /// The text is not a JSON document of the manifest's schema.
    Decode,
    /// The manifest could not be turned into text.
    Encode,
}

/// One member `"id":"path"` of a JSON object.
pub open spec fn member_text(e: EntryModel) -> Seq<char> {
    json_quoted(e.0) + seq![':'] + json_quoted(e.1)
}

/// The members of a table, separated by commas.
pub open spec fn members_text(s: Seq<EntryModel>) -> Seq<char>
    decreases s.len(),
{
    if s.len() == 0 {
        Seq::empty()
    } else if s.len() == 1 {
        member_text(s[0])
    } else {
        members_text(s.drop_last()) + seq![','] + member_text(s.last())
    }
}

/// The JSON object for a table.
pub open spec fn object_text(s: Seq<EntryModel>) -> Seq<char> {
    seq!['{'] + members_text(s) + seq!['}']
}

/// The string literals of a list, separated by commas.
pub open spec fn items_text(s: Seq<Seq<char>>) -> Seq<char>
    decreases s.len(),
{
    if s.len() == 0 {
        Seq::empty()
    } else if s.len() == 1 {
        json_quoted(s[0])
    } else {
        items_text(s.drop_last()) + seq![','] + json_quoted(s.last())
    }
}

/// The JSON array for a list of strings.
pub open spec fn array_text(s: Seq<Seq<char>>) -> Seq<char> {
    seq!['['] + items_text(s) + seq![']']
}

/// The whole document for a manifest.
pub open spec fn document_text(sf: Syncfile) -> Seq<char> {
    "{\"st_pairs\":"@ + object_text(sf.pairs_seq()) + ",\"cache_dirs\":"@ + object_text(sf.cache_seq())
        + ",\"ignore\":"@ + array_text(sf.ignore_seq()) + "}"@
}

/// The JSON string literal for `s`.
fn quoted(s: &String) -> (r: Result<String, ManifestError>)
    ensures
        r matches Ok(q) && q@ == json_quoted(s@),
{
    match quote(s.as_str()) {
        Ok(q) => Ok(q),
        Err(_) => Err(ManifestError::Encode),
    }
}

/// Appends the JSON object for the table `v` to `out`.
fn push_object(out: &mut String, v: &Vec<(String, String)>) -> (r: Result<(), ManifestError>)
    ensures
        r is Ok,
        final(out)@ == old(out)@ + object_text(entries_view(v@)),
{
    let ghost start = out@;
    let ghost s = entries_view(v@);
    out.append("{");
    proof {
        reveal_strlit("{");
        assert(members_text(s.take(0)) =~= Seq::empty());
        assert(out@ =~= start + seq!['{'] + members_text(s.take(0)));
    }
    let mut i: usize = 0;
    while i < v.len()
        invariant
            i <= v@.len(),
            s == entries_view(v@),
            out@ == start + seq!['{'] + members_text(s.take(i as int)),
        decreases v@.len() - i,
    {
        let k = quoted(&v[i].0)?;
        let p = quoted(&v[i].1)?;
        let ghost before = out@;
        if i > 0 {
            out.append(",");
        }
        out.append(k.as_str());
        out.append(":");
        out.append(p.as_str());
        proof {
            reveal_strlit("{");
            reveal_strlit(",");
            reveal_strlit(":");
            let t = s.take(i + 1);
            assert(t.drop_last() =~= s.take(i as int));
            assert(t.last() == s[i as int]);
            if i == 0 {
                assert(out@ =~= before + member_text(s[i as int]));
            } else {
                assert(out@ =~= before + seq![','] + member_text(s[i as int]));
            }
        }
        i = i + 1;
    }
    out.append("}");
    proof {
        reveal_strlit("{");
        reveal_strlit("}");
        assert(s.take(v@.len() as int) =~= s);
        assert(out@ =~= start + object_text(s));
    }
    Ok(())
}

/// Appends the JSON array for the strings `v` to `out`.
fn push_array(out: &mut String, v: &Vec<String>) -> (r: Result<(), ManifestError>)
    ensures
        r is Ok,
        final(out)@ == old(out)@ + array_text(strings_view(v@)),
{
    let ghost start = out@;
    let ghost s = strings_view(v@);
    out.append("[");
    proof {
        reveal_strlit("[");
        assert(items_text(s.take(0)) =~= Seq::empty());
        assert(out@ =~= start + seq!['['] + items_text(s.take(0)));
    }
    let mut i: usize = 0;
    while i < v.len()
        invariant
            i <= v@.len(),
            s == strings_view(v@),
            out@ == start + seq!['['] + items_text(s.take(i as int)),
        decreases v@.len() - i,
    {
        let q = quoted(&v[i])?;
        let ghost before = out@;
        if i > 0 {
            out.append(",");
        }
        out.append(q.as_str());
        proof {
            reveal_strlit("[");
            reveal_strlit(",");
            let t = s.take(i + 1);
            assert(t.drop_last() =~= s.take(i as int));
            assert(t.last() == s[i as int]);
            if i == 0 {
                assert(out@ =~= before + json_quoted(s[i as int]));
            } else {
                assert(out@ =~= before + seq![','] + json_quoted(s[i as int]));
            }
        }
        i = i + 1;
    }
    out.append("]");
    proof {
        reveal_strlit("[");
        reveal_strlit("]");
        assert(s.take(v@.len() as int) =~= s);
        assert(out@ =~= start + array_text(s));
    }
    Ok(())
}

/// The document text of a manifest.
pub fn encode_syncfile(syncfile: &Syncfile) -> (r: Result<String, ManifestError>)
    ensures
        r matches Ok(text) && text@ == document_text(*syncfile),
{
    let mut out = String::new();
    out.append("{\"st_pairs\":");
    push_object(&mut out, &syncfile.st_pairs)?;
    out.append(",\"cache_dirs\":");
    push_object(&mut out, &syncfile.cache_dirs)?;
    out.append(",\"ignore\":");
    push_array(&mut out, &syncfile.ignore)?;
    out.append("}");
    Ok(out)
}

/// The first member of `m` named `name`.
pub open spec fn member_of(m: Seq<(String, Json)>, name: Seq<char>) -> Option<Json>
    decreases m.len(),
{
    if m.len() == 0 {
        None
    } else if m[0].0@ == name {
        Some(m[0].1)
    } else {
        member_of(m.skip(1), name)
    }
}

/// Every member of `m` is a string.
pub open spec fn all_str_members(m: Seq<(String, Json)>) -> bool {
    forall|i: int| 0 <= i < m.len() ==> (#[trigger] m[i]).1 is Str
}

/// The members of `m`, each with its string value.
pub open spec fn str_members(m: Seq<(String, Json)>) -> Seq<EntryModel> {
    m.map_values(|e: (String, Json)| (e.0@, e.1->Str_0@))
}

/// Every element of `a` is a string.
pub open spec fn all_str_items(a: Seq<Json>) -> bool {
    forall|i: int| 0 <= i < a.len() ==> (#[trigger] a[i]) is Str
}

/// The strings of `a`.
pub open spec fn str_items(a: Seq<Json>) -> Seq<Seq<char>> {
    a.map_values(|j: Json| j->Str_0@)
}

/// The table that an object of strings holds: later members win.
pub open spec fn table_of(v: Json) -> Option<Map<Seq<char>, Seq<char>>> {
    match v {
        Json::Object(m) => if all_str_members(m@) {
            Some(entries_map(str_members(m@)))
        } else {
            None
        },
        _ => None,
    }
}

/// The list that an array of strings holds.
pub open spec fn list_of(v: Json) -> Option<Seq<Seq<char>>> {
    match v {
        Json::Array(a) => if all_str_items(a@) {
            Some(str_items(a@))
        } else {
            None
        },
        _ => None,
    }
}

/// The member `name` of the object `doc`.
pub open spec fn field_of(doc: Json, name: Seq<char>) -> Option<Json> {
    match doc {
        Json::Object(m) => member_of(m@, name),
        _ => None,
    }
}

/// The member `name` of `doc`, read as a table.
pub open spec fn field_table(doc: Json, name: Seq<char>) -> Option<Map<Seq<char>, Seq<char>>> {
    match field_of(doc, name) {
        Some(v) => table_of(v),
        None => None,
    }
}

/// The member `name` of `doc`, read as a list of strings.
pub open spec fn field_list(doc: Json, name: Seq<char>) -> Option<Seq<Seq<char>>> {
    match field_of(doc, name) {
        Some(v) => list_of(v),
        None => None,
    }
}

/// `doc` is an object whose `st_pairs` and `cache_dirs` are objects of
/// strings and whose `ignore` is an array of strings.
pub open spec fn manifest_shape(doc: Json) -> bool {
    &&& field_table(doc, "st_pairs"@) is Some
    &&& field_table(doc, "cache_dirs"@) is Some
    &&& field_list(doc, "ignore"@) is Some
}

/// `sf` holds what `doc` holds.
pub open spec fn manifest_holds(sf: Syncfile, doc: Json) -> bool {
    &&& sf.wf()
    &&& sf.pairs_map() == field_table(doc, "st_pairs"@)->Some_0
    &&& sf.cache_map() == field_table(doc, "cache_dirs"@)->Some_0
    &&& sf.ignore_seq() == field_list(doc, "ignore"@)->Some_0
}

/// The index of the first member named `name`.
fn member_index(members: &Vec<(String, Json)>, name: &String) -> (r: Option<usize>)
    ensures
        r matches Some(i) ==> i < members@.len() && member_of(members@, name@) == Some(members@[i as int].1),
        r is None ==> member_of(members@, name@) is None,
{
    let mut i: usize = 0;
    assert(members@.skip(0) =~= members@);
    while i < members.len()
        invariant
            i <= members@.len(),
            member_of(members@, name@) == member_of(members@.skip(i as int), name@),
        decreases members@.len() - i,
    {
        let ghost rest = members@.skip(i as int);
        assert(rest[0] == members@[i as int]);
        if members[i].0 == *name {
            return Some(i);
        }
        assert(rest.skip(1) =~= members@.skip(i + 1));
        i = i + 1;
    }
    None
}

/// The table that `v` holds, if it is an object of strings.
fn string_table(v: &Json) -> (r: Option<Vec<(String, String)>>)
    ensures
        r is Some <==> table_of(*v) is Some,
        r matches Some(t) ==> keys_unique(entries_view(t@)) && entries_map(entries_view(t@)) == table_of(
            *v,
        )->Some_0,
{
    let members = match v {
        Json::Object(m) => m,
        _ => return None,
    };
    let mut table: Vec<(String, String)> = Vec::new();
    let mut i: usize = 0;
    proof {
        assert(entries_view(table@) =~= Seq::empty());
        assert(str_members(members@.take(0)) =~= Seq::empty());
    }
    while i < members.len()
        invariant
            i <= members@.len(),
            *v == Json::Object(*members),
            keys_unique(entries_view(table@)),
            all_str_members(members@.take(i as int)),
            entries_map(entries_view(table@)) == entries_map(str_members(members@.take(i as int))),
        decreases members@.len() - i,
    {
        let path = match &members[i].1 {
            Json::Str(p) => p.clone(),
            _ => {
                assert(!(members@[i as int].1 is Str));
                assert(!all_str_members(members@));
                return None;
            },
        };
        let ghost t = str_members(members@.take(i as int));
        insert_entry(&mut table, members[i].0.clone(), path);
        proof {
            let e = (members@[i as int].0@, path@);
            let u = str_members(members@.take(i + 1));
            assert(u =~= t.push(e));
            assert(u.drop_last() =~= t);
            assert forall|j: int| 0 <= j < i + 1 implies (#[trigger] members@.take(i + 1)[j]).1 is Str by {
                if j < i {
                    assert(members@.take(i + 1)[j] == members@.take(i as int)[j]);
                }
            }
        }
        i = i + 1;
    }
    proof {
        assert(members@.take(members@.len() as int) =~= members@);
    }
    Some(table)
}

/// The list that `v` holds, if it is an array of strings.
fn string_list(v: &Json) -> (r: Option<Vec<String>>)
    ensures
        r is Some <==> list_of(*v) is Some,
        r matches Some(l) ==> strings_view(l@) == list_of(*v)->Some_0,
{
    let items = match v {
        Json::Array(a) => a,
        _ => return None,
    };
    let mut list: Vec<String> = Vec::new();
    let mut i: usize = 0;
    proof {
        assert(strings_view(list@) =~= str_items(items@.take(0)));
    }
    while i < items.len()
        invariant
            i <= items@.len(),
            *v == Json::Array(*items),
            all_str_items(items@.take(i as int)),
            strings_view(list@) == str_items(items@.take(i as int)),
        decreases items@.len() - i,
    {
        let p = match &items[i] {
            Json::Str(p) => p.clone(),
            _ => {
                assert(!(items@[i as int] is Str));
                assert(!all_str_items(items@));
                return None;
            },
        };
        let ghost before = list@;
        list.push(p);
        proof {
            assert(strings_view(list@) =~= strings_view(before).push(p@));
            assert(str_items(items@.take(i + 1)) =~= str_items(items@.take(i as int)).push(p@));
            assert forall|j: int| 0 <= j < i + 1 implies (#[trigger] items@.take(i + 1)[j]) is Str by {
                if j < i {
                    assert(items@.take(i + 1)[j] == items@.take(i as int)[j]);
                }
            }
        }
        i = i + 1;
    }
    proof {
        assert(items@.take(items@.len() as int) =~= items@);
    }
    Some(list)
}

/// The member `name` of the object `doc`, by reference.
fn member<'a>(doc: &'a Json, name: &str) -> (r: Option<&'a Json>)
    ensures
        r matches Some(v) ==> field_of(*doc, name@) == Some(*v),
        r is None ==> field_of(*doc, name@) is None,
{
    let members = match doc {
        Json::Object(m) => m,
        _ => return None,
    };
    let key = String::from_str(name);
    match member_index(members, &key) {
        Some(i) => Some(&members[i].1),
        None => None,
    }
}

/// Reads a manifest from a parsed document. Members other than the three
/// fields are ignored; a missing field, or a field of another shape, is a
/// decode error.
pub fn manifest_from_json(doc: &Json) -> (r: Result<Syncfile, ManifestError>)
    ensures
        r is Ok <==> manifest_shape(*doc),
        r matches Ok(sf) ==> manifest_holds(sf, *doc),
        r matches Err(e) ==> e == ManifestError::Decode,
{
    let st_pairs = match member(doc, "st_pairs") {
        Some(v) => match string_table(v) {
            Some(t) => t,
            None => return Err(ManifestError::Decode),
        },
        None => return Err(ManifestError::Decode),
    };
    let cache_dirs = match member(doc, "cache_dirs") {
        Some(v) => match string_table(v) {
            Some(t) => t,
            None => return Err(ManifestError::Decode),
        },
        None => return Err(ManifestError::Decode),
    };
    let ignore = match member(doc, "ignore") {
        Some(v) => match string_list(v) {
            Some(l) => l,
            None => return Err(ManifestError::Decode),
        },
        None => return Err(ManifestError::Decode),
    };
    Ok(Syncfile { st_pairs, cache_dirs, ignore })
}

/// Reads a manifest from its document text: text that serde_json does not
/// accept, or a document without the three fields in their shapes, is a
/// decode error.
pub fn read_syncfile(text: &str) -> (r: Result<Syncfile, ManifestError>)
    ensures
        r is Ok <==> json_parses(text@) && manifest_shape(json_value_of(text@)),
        r matches Ok(sf) ==> manifest_holds(sf, json_value_of(text@)),
        r matches Err(e) ==> e == ManifestError::Decode,
{
    match parse_json(text) {
        Ok(doc) => manifest_from_json(&doc),
        Err(_) => Err(ManifestError::Decode),
    }
}

} // verus!
