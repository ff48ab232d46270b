use vstd::prelude::*;

use crate::json::{json_doc, json_index, parse_json, Json};

verus! {

/// The schema version of the lock documents this library reads.
pub const SCHEMA_VERSION: i64 = 7;

/// Why a lock document was rejected.
#[derive(Debug)]
pub enum ParseError {
    /// The text is not valid JSON.
    JsonSyntax,
    /// The top-level `version` field is not `SCHEMA_VERSION`; carries the
    /// value that was found in its place.
    VersionMismatch(Json),
    /// A field the schema needs is missing or has the wrong type.
    Malformed,
    /// The document declares no dependency beside the root node.
    NoInputs,
}

/// The declared root node's name, when the document declares one: the
/// top-level `root` field, which the schema requires to be a string.
pub open spec fn root_name_of(doc: Json) -> Option<Seq<char>> {
    match json_index(doc, "root"@) {
        Json::Str(s) => Some(s@),
        _ => None,
    }
}

/// The Unix instant a node's pinned revision declares: its
/// `locked.lastModified` field, when that field is an integer.
pub open spec fn node_stamp(node: Json) -> Option<i64> {
    match json_index(json_index(node, "locked"@), "lastModified"@) {
        Json::Int(n) => Some(n),
        _ => None,
    }
}

/// The mapping a lock document's node list describes: every node whose name
/// differs from the root's, keyed by name (a later binding of a repeated
/// name winning), each mapped to its `locked.lastModified` instant; `None`
/// as soon as one non-root node lacks that instant.
pub open spec fn collect_stamps(nodes: Seq<(String, Json)>, root: Seq<char>) -> Option<
    Map<Seq<char>, int>,
>
    decreases nodes.len(),
{
    if nodes.len() == 0 {
        Some(Map::empty())
    } else {
        match collect_stamps(nodes.drop_last(), root) {
            Some(m) => {
                if nodes.last().0@ == root {
                    Some(m)
                } else {
                    match node_stamp(nodes.last().1) {
                        Some(secs) => Some(m.insert(nodes.last().0@, secs as int)),
                        None => None,
                    }
                }
            },
            None => None,
        }
    }
}

/// What parsing a lock document yields: the name-to-instant mapping, or the
/// error the document earns. The `version` field must equal
/// `SCHEMA_VERSION`; the `root` field must be a string naming the root node;
/// `nodes` must be an object whose every non-root member carries an integer
/// `locked.lastModified`; and at least one entry must remain once the root
/// is set aside.
pub open spec fn parse_result(doc: Json) -> Result<Map<Seq<char>, int>, ParseError> {
    if json_index(doc, "version"@) != Json::Int(SCHEMA_VERSION) {
        Err(ParseError::VersionMismatch(json_index(doc, "version"@)))
    } else {
        match root_name_of(doc) {
            Some(root) => match json_index(doc, "nodes"@) {
                Json::Obj(nodes) => match collect_stamps(nodes@, root) {
                    Some(m) => if m == Map::<Seq<char>, int>::empty() {
                        Err(ParseError::NoInputs)
                    } else {
                        Ok(m)
                    },
                    None => Err(ParseError::Malformed),
                },
                _ => Err(ParseError::Malformed),
            },
            None => Err(ParseError::Malformed),
        }
    }
}

/// No name is bound twice.
pub open spec fn unique_names(entries: Seq<(String, i64)>) -> bool {
    forall|i: int, j: int| 0 <= i < j < entries.len() ==> entries[i].0@ != entries[j].0@
}

/// The mapping a list of bindings describes, a later binding winning.
pub open spec fn entries_map(entries: Seq<(String, i64)>) -> Map<Seq<char>, int>
    decreases entries.len(),
{
    if entries.len() == 0 {
        Map::empty()
    } else {
        entries_map(entries.drop_last()).insert(
            entries.last().0@,
            entries.last().1 as int,
        )
    }
}

proof fn lemma_entries_map_agrees(s: Seq<(String, i64)>)
    requires
        unique_names(s),
    ensures
        forall|i: int|
            0 <= i < s.len() ==> entries_map(s).contains_key(#[trigger] s[i].0@)
                && entries_map(s)[s[i].0@] == s[i].1 as int,
        forall|k: Seq<char>| #[trigger]
            entries_map(s).contains_key(k) ==> exists|i: int|
                0 <= i < s.len() && s[i].0@ == k,
    decreases s.len(),
{
    if s.len() > 0 {
        let small = s.drop_last();
        assert(forall|i: int| 0 <= i < small.len() ==> small[i] == s[i]);
        lemma_entries_map_agrees(small);
        assert forall|i: int|
            0 <= i < s.len() implies entries_map(s).contains_key(#[trigger] s[i].0@)
            && entries_map(s)[s[i].0@] == s[i].1 as int by {
            if i < s.len() - 1 {
                assert(entries_map(small).contains_key(s[i].0@));
                assert(s[i].0@ != s.last().0@);
            }
        }
        assert forall|k: Seq<char>| #[trigger]
            entries_map(s).contains_key(k) implies exists|i: int|
            0 <= i < s.len() && s[i].0@ == k by {
            if k == s.last().0@ {
                assert(s[s.len() - 1].0@ == k);
            } else {
                assert(entries_map(small).contains_key(k));
            }
        }
    }
}

proof fn lemma_entries_map_dom(s: Seq<(String, i64)>)
    requires
        unique_names(s),
    ensures
        entries_map(s).dom().finite(),
        entries_map(s).dom().len() == s.len(),
    decreases s.len(),
{
    if s.len() > 0 {
        let small = s.drop_last();
        assert(forall|i: int| 0 <= i < small.len() ==> small[i] == s[i]);
        lemma_entries_map_dom(small);
        lemma_entries_map_agrees(small);
        assert(!entries_map(small).contains_key(s.last().0@));
        assert(entries_map(s).dom() =~= entries_map(small).dom().insert(s.last().0@));
    }
}

proof fn lemma_entries_map_remove(s: Seq<(String, i64)>, j: int)
    requires
        unique_names(s),
        0 <= j < s.len(),
    ensures
        entries_map(s.remove(j)) == entries_map(s).remove(s[j].0@),
    decreases s.len(),
{
    s.remove_ensures(j);
    let small = s.drop_last();
    assert(forall|i: int| 0 <= i < small.len() ==> small[i] == s[i]);
    lemma_entries_map_agrees(small);
    if j == s.len() - 1 {
        assert(s.remove(j) =~= small);
        assert(!entries_map(small).contains_key(s[j].0@));
        assert(entries_map(s.remove(j)) =~= entries_map(s).remove(s[j].0@));
    } else {
        small.remove_ensures(j);
        lemma_entries_map_remove(small, j);
        assert(s.remove(j).drop_last() =~= small.remove(j));
        assert(s.remove(j).last() == s.last());
        assert(s[j].0@ != s.last().0@);
        assert(entries_map(s.remove(j)) =~= entries_map(s).remove(s[j].0@));
    }
}

/// Binds `name` to `secs`, replacing an earlier binding of the same name.
#[verifier::loop_isolation(false)]
fn insert_entry(entries: &mut Vec<(String, i64)>, name: String, secs: i64)
    requires
        unique_names(old(entries)@),
    ensures
        unique_names(final(entries)@),
        final(entries)@.len() >= 1,
        entries_map(final(entries)@) == entries_map(old(entries)@).insert(name@, secs as int),
{
    let ghost orig = entries@;
    let mut i: usize = 0;
    while i < entries.len()
        invariant
            entries@ == orig,
            0 <= i <= orig.len(),
            forall|j: int| 0 <= j < i ==> orig[j].0@ != name@,
        decreases orig.len() - i,
    {
        if entries[i].0 == name {
            proof {
                orig.remove_ensures(i as int);
                lemma_entries_map_remove(orig, i as int);
            }
            let _replaced = entries.remove(i);
            entries.push((name, secs));
            proof {
                assert(entries@.drop_last() =~= orig.remove(i as int));
                assert(unique_names(orig.remove(i as int)));
                assert(unique_names(entries@));
                assert(entries_map(entries@) =~= entries_map(orig).insert(name@, secs as int));
            }
            return;
        }
        i += 1;
    }
    entries.push((name, secs));
    proof {
        assert(entries@.drop_last() =~= orig);
        assert(unique_names(entries@));
    }
}

proof fn lemma_collect_stamps_none(nodes: Seq<(String, Json)>, root: Seq<char>, j: int)
    requires
        0 <= j <= nodes.len(),
        collect_stamps(nodes.take(j), root) is None,
    ensures
        collect_stamps(nodes, root) is None,
    decreases nodes.len() - j,
{
    if j < nodes.len() {
        assert(nodes.take(j + 1).drop_last() =~= nodes.take(j));
        lemma_collect_stamps_none(nodes, root, j + 1);
    } else {
        assert(nodes.take(j) =~= nodes);
    }
}

proof fn lemma_collect_no_root(nodes: Seq<(String, Json)>, root: Seq<char>)
    requires
        collect_stamps(nodes, root) is Some,
    ensures
        !collect_stamps(nodes, root).unwrap().contains_key(root),
    decreases nodes.len(),
{
    if nodes.len() > 0 {
        lemma_collect_no_root(nodes.drop_last(), root);
    }
}

/// Law: a document whose top-level `version` differs from `SCHEMA_VERSION`
/// is rejected with the version-mismatch error carrying the value found,
/// whatever its nodes hold.
pub proof fn lemma_version_mismatch(doc: Json)
    requires
        json_index(doc, "version"@) != Json::Int(SCHEMA_VERSION),
    ensures
        parse_result(doc) == Err::<Map<Seq<char>, int>, ParseError>(
            ParseError::VersionMismatch(json_index(doc, "version"@)),
        ),
{
}

/// Law: the node whose name equals the declared root never contributes an
/// entry: a successfully parsed mapping holds no binding for the root name,
/// even when that node carries a valid instant of its own.
pub proof fn lemma_root_excluded(doc: Json)
    requires
        parse_result(doc) is Ok,
    ensures
        root_name_of(doc) is Some,
        !parse_result(doc).unwrap().contains_key(root_name_of(doc).unwrap()),
{
    match json_index(doc, "nodes"@) {
        Json::Obj(nodes) => {
            lemma_collect_no_root(nodes@, root_name_of(doc).unwrap());
        },
        _ => {
            assert(false);
        },
    }
}

/// What `from_json` promises of its result for a given document.
pub open spec fn from_json_post(doc: Json, r: Result<Inputs, ParseError>) -> bool {
    match r {
        Ok(inputs) => inputs.wf() && parse_result(doc) == Ok::<Map<Seq<char>, int>, ParseError>(
            inputs@,
        ),
        Err(e) => parse_result(doc) == Err::<Map<Seq<char>, int>, ParseError>(e),
    }
}

/// The dependency inputs of a lock document: a non-empty mapping from
/// dependency name to the Unix instant its pinned revision was produced.
#[derive(Debug)]
pub struct Inputs {
    entries: Vec<(String, i64)>,
}

impl View for Inputs {
    type V = Map<Seq<char>, int>;

    closed spec fn view(&self) -> Map<Seq<char>, int> {
        entries_map(self.entries@)
    }
}

impl Inputs {
    /// A constructed input set binds each name once and is never empty.
    pub closed spec fn wf(&self) -> bool {
        unique_names(self.entries@) && self.entries@.len() >= 1
    }

    /// Makes an input set out of bindings; an empty list is refused with the
    /// empty-input-set error.
    pub fn new(entries: Vec<(String, i64)>) -> (r: Result<Inputs, ParseError>)
        requires
            unique_names(entries@),
        ensures
            entries@.len() == 0 ==> r == Err::<Inputs, ParseError>(ParseError::NoInputs),
            entries@.len() > 0 ==> (r matches Ok(inputs) && inputs.wf() && inputs@ == entries_map(
                entries@,
            )),
    {
        if entries.len() == 0 {
            Err(ParseError::NoInputs)
        } else {
            Ok(Inputs { entries })
        }
    }

    /// Reads the input set out of a parsed lock document, as `parse_result`
    /// says.
    #[verifier::loop_isolation(false)]
    pub fn from_json(doc: Json) -> (r: Result<Inputs, ParseError>)
        ensures
            from_json_post(doc, r),
    {
        let version_key = String::from_str("version");
        let version_ok = match doc.get(&version_key) {
            Json::Int(n) => *n == SCHEMA_VERSION,
            _ => false,
        };
        if !version_ok {
            return Err(ParseError::VersionMismatch(doc.take(&version_key)));
        }
        let root_key = String::from_str("root");
        let rootname: &String = match doc.get(&root_key) {
            Json::Str(s) => s,
            _ => {
                return Err(ParseError::Malformed);
            },
        };
        proof {
            assert(root_name_of(doc) == Some(rootname@));
        }
        let nodes_key = String::from_str("nodes");
        let nodes: &Vec<(String, Json)> = match doc.get(&nodes_key) {
            Json::Obj(entries) => entries,
            _ => {
                return Err(ParseError::Malformed);
            },
        };
        let locked_key = String::from_str("locked");
        let modified_key = String::from_str("lastModified");
        let mut found: Vec<(String, i64)> = Vec::new();
        let mut i: usize = 0;
        while i < nodes.len()
            invariant
                0 <= i <= nodes@.len(),
                unique_names(found@),
                collect_stamps(nodes@.take(i as int), rootname@) == Some(entries_map(found@)),
            decreases nodes@.len() - i,
        {
            proof {
                assert(nodes@.take(i + 1).drop_last() =~= nodes@.take(i as int));
                assert(nodes@.take(i + 1).last() == nodes@[i as int]);
            }
            let name = &nodes[i].0;
            if !(*name == *rootname) {
                let secs: i64 = match nodes[i].1.get(&locked_key).get(&modified_key) {
                    Json::Int(n) => *n,
                    _ => {
                        proof {
                            lemma_collect_stamps_none(nodes@, rootname@, i + 1);
                        }
                        return Err(ParseError::Malformed);
                    },
                };
                insert_entry(&mut found, name.clone(), secs);
            }
            i += 1;
        }
        proof {
            assert(nodes@.take(nodes@.len() as int) =~= nodes@);
            if found@.len() > 0 {
                assert(entries_map(found@).contains_key(found@.last().0@));
            }
        }
        Inputs::new(found)
    }

    /// Parses a lock file's text: JSON syntax first, then the document as
    /// `from_json` reads it.
    pub fn from_text(text: &str) -> (r: Result<Inputs, ParseError>)
        ensures
            match json_doc(text@) {
                Some(doc) => from_json_post(doc, r),
                None => r == Err::<Inputs, ParseError>(ParseError::JsonSyntax),
            },
    {
        match parse_json(text) {
            Some(doc) => Inputs::from_json(doc),
            None => Err(ParseError::JsonSyntax),
        }
    }

    /// The most recent instant among the inputs: for every mapping an input
    /// set holds, the maximum of its values.
    #[verifier::loop_isolation(false)]
    pub fn latest(&self) -> (r: i64)
        requires
            self.wf(),
        ensures
            exists|name: Seq<char>| #[trigger]
                self@.contains_key(name) && self@[name] == r as int,
            forall|name: Seq<char>| #[trigger]
                self@.contains_key(name) ==> self@[name] <= r as int,
    {
        let mut best: i64 = self.entries[0].1;
        let mut i: usize = 1;
        while i < self.entries.len()
            invariant
                1 <= i <= self.entries@.len(),
                exists|j: int| 0 <= j < i && #[trigger] self.entries@[j].1 == best,
                forall|j: int| 0 <= j < i ==> #[trigger] self.entries@[j].1 <= best,
            decreases self.entries@.len() - i,
        {
            if self.entries[i].1 > best {
                best = self.entries[i].1;
            }
            i += 1;
        }
        proof {
            lemma_entries_map_agrees(self.entries@);
            let j = choose|j: int|
                0 <= j < self.entries@.len() && #[trigger] self.entries@[j].1 == best;
            assert(self@.contains_key(self.entries@[j].0@));
            assert forall|name: Seq<char>| #[trigger]
                self@.contains_key(name) implies self@[name] <= best as int by {
                let t = choose|t: int|
                    0 <= t < self.entries@.len() && #[trigger] self.entries@[t].0@ == name;
                assert(self@[name] == self.entries@[t].1 as int);
            }
        }
        best
    }

    /// How many inputs the set holds.
    pub fn len(&self) -> (r: usize)
        requires
            self.wf(),
        ensures
            r == self@.dom().len(),
            r >= 1,
    {
        proof {
            lemma_entries_map_dom(self.entries@);
        }
        self.entries.len()
    }

    /// The instant recorded under `name`, when the set holds that name.
    #[verifier::loop_isolation(false)]
    pub fn get(&self, name: &String) -> (r: Option<i64>)
        requires
            self.wf(),
        ensures
            match r {
                Some(secs) => self@.contains_key(name@) && self@[name@] == secs as int,
                None => !self@.contains_key(name@),
            },
    {
        proof {
            lemma_entries_map_agrees(self.entries@);
        }
        let mut i: usize = 0;
        while i < self.entries.len()
            invariant
                0 <= i <= self.entries@.len(),
                forall|j: int| 0 <= j < i ==> self.entries@[j].0@ != name@,
            decreases self.entries@.len() - i,
        {
            if self.entries[i].0 == *name {
                return Some(self.entries[i].1);
            }
            i += 1;
        }
        None
    }
}

} // verus!

