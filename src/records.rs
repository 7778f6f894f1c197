use vstd::prelude::*;

verus! {

/// Why the input could not be turned into records.
pub enum InputError {
    /// No file at the given path.
    InputNotFound(String),
    /// The file holds no record.
    InputEmpty,
    /// The row at this position lacks a required field.
    InputMalformed(usize),
}

/// The mapping from identifier to content that a sequence of rows gives: a later row
/// replaces an earlier one with the same identifier.
pub open spec fn records_map(rows: Seq<(String, String)>) -> Map<Seq<char>, Seq<char>>
    decreases rows.len(),
{
    if rows.len() == 0 {
        Map::empty()
    } else {
        records_map(rows.drop_last()).insert(rows.last().0@, rows.last().1@)
    }
}

/// Each identifier stands once in the list.
pub open spec fn unique_ids(v: Seq<(String, String)>) -> bool {
    forall|i: int, j: int| 0 <= i < j < v.len() ==> v[i].0@ != v[j].0@
}

/// Index of the first row that failed to parse, if any.
pub open spec fn first_malformed(rows: Seq<Option<(String, String)>>) -> Option<int> {
    if exists|k: int| 0 <= k < rows.len() && rows[k] is None {
        Some(choose|k: int| 0 <= k < rows.len() && rows[k] is None && forall|m: int| 0 <= m < k ==> rows[m] is Some)
    } else {
        None
    }
}

proof fn lemma_list_map_update(v: Seq<(String, String)>, i: int, p: (String, String))
    requires
        0 <= i < v.len(),
        unique_ids(v),
        v[i].0@ == p.0@,
    ensures
        records_map(v.update(i, p)) == records_map(v).insert(p.0@, p.1@),
        unique_ids(v.update(i, p)),
    decreases v.len(),
{
    let w = v.update(i, p);
    if i == v.len() - 1 {
        assert(w.drop_last() =~= v.drop_last());
        assert(records_map(w) =~= records_map(v).insert(p.0@, p.1@));
    } else {
        assert(w.drop_last() =~= v.drop_last().update(i, p));
        lemma_list_map_update(v.drop_last(), i, p);
        assert(records_map(w) =~= records_map(v).insert(p.0@, p.1@));
    }
}

/// Adds a record, replacing the content of a record with the same identifier.
pub fn insert_record(list: &mut Vec<(String, String)>, uid: String, content: String)
    requires
        unique_ids(old(list)@),
    ensures
        unique_ids(final(list)@),
        records_map(final(list)@) == records_map(old(list)@).insert(uid@, content@),
{
    let mut k: usize = 0;
    while k < list.len()
        invariant
            0 <= k <= list@.len(),
            list@ == old(list)@,
            unique_ids(list@),
            forall|m: int| 0 <= m < k ==> (#[trigger] list@[m]).0@ != uid@,
        decreases list@.len() - k,
    {
        if list[k].0 == uid {
            let ghost before = list@;
            let ghost p = (uid, content);
            list.set(k, (uid, content));
            proof {
                lemma_list_map_update(before, k as int, p);
                assert(list@ =~= before.update(k as int, p));
            }
            return;
        }
        k += 1;
    }
    let ghost before = list@;
    list.push((uid, content));
    assert(list@.drop_last() =~= before);
}

/// Records from the rows of an input file. The file must exist, every row must have
/// an identifier and a content, and there must be at least one row. A later row
/// replaces an earlier one with the same identifier.
pub fn parse_csv(path: &str, path_exists: bool, rows: Vec<Option<(String, String)>>) -> (r: Result<Vec<(String, String)>, InputError>)
    ensures
        !path_exists ==> (r matches Err(InputError::InputNotFound(p)) && p@ == path@),
        path_exists && first_malformed(rows@) is Some ==> (r matches Err(
            InputError::InputMalformed(k),
        ) && Some(k as int) == first_malformed(rows@)),
        path_exists && first_malformed(rows@) is None && rows@.len() == 0 ==> (r matches Err(
            InputError::InputEmpty,
        )),
        path_exists && first_malformed(rows@) is None && rows@.len() > 0 ==> (r matches Ok(v)
            && unique_ids(v@) && records_map(v@) == records_map(
            rows@.map_values(|o: Option<(String, String)>| o->0),
        )),
{
    if !path_exists {
        return Err(InputError::InputNotFound(path.to_owned()));
    }
    let ghost all = rows@.map_values(|o: Option<(String, String)>| o->0);
    let mut res: Vec<(String, String)> = Vec::new();
    let mut lines: usize = 0;
    let ghost original = rows@;
    while lines < rows.len()
        invariant
            rows@ == original,
            path_exists,
            all == original.map_values(|o: Option<(String, String)>| o->0),
            0 <= lines <= original.len(),
            forall|m: int| 0 <= m < lines ==> (#[trigger] original[m]) is Some,
            unique_ids(res@),
            records_map(res@) == records_map(all.take(lines as int)),
        decreases original.len() - lines,
    {
        match &rows[lines] {
            None => {
                proof {
                    assert(exists|k: int| 0 <= k < original.len() && original[k] is None);
                    let c = choose|k: int| 0 <= k < original.len() && original[k] is None && forall|m: int| 0 <= m < k ==> original[m] is Some;
                    if c < lines {
                    } else if c > lines {
                        assert(original[lines as int] is Some);
                    }
                    assert(c == lines);
                }
                return Err(InputError::InputMalformed(lines));
            },
            Some(record) => {
                let uid = record.0.clone();
                let content = record.1.clone();
                assert(all.take(lines as int + 1).drop_last() =~= all.take(lines as int));
                insert_record(&mut res, uid, content);
            },
        }
        lines += 1;
    }
    assert(all.take(lines as int) =~= all);
    if lines == 0 {
        return Err(InputError::InputEmpty);
    }
    Ok(res)
}

} // verus!
