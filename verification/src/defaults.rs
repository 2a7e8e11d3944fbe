//! The default symbol-table entries that a new drawing starts with, and
//! what the DXF reader does when a file reuses their handles: the entries
//! of such a file would otherwise share a handle with a surviving default,
//! so the default moves to a fresh handle and the header references that
//! pointed at it follow; dimension styles whose text style no longer
//! resolves are pointed at the text style of their own name.
use vstd::prelude::*;

use std::collections::HashMap;

use crate::document::{BlockRecord, CadDocument, DimStyle, EntityRecord, Header, Layer, LineType, NamedEntry, TableEntry};
use crate::seqs::{first_index, first_match, lemma_first_index_facts, lemma_first_index_is, lemma_first_index_none};
use crate::text::{eq_ignore_ascii_case, eq_ignore_case};
use crate::objects::ObjectType;
use crate::types::Handle;
use crate::text::{owned, same_text};

verus! {

broadcast use vstd::std_specs::hash::group_hash_axioms;

/// The symbol tables of a drawing.
#[derive(Clone, Copy, Debug, PartialEq, Eq, Structural)]
pub enum TableKind {
    Layers,
    LineTypes,
    TextStyles,
    DimStyles,
    AppIds,
    Views,
    VPorts,
    Ucss,
    VxTable,
    BlockRecords,
}

/// The name and handle value of each entry.
pub open spec fn entry_keys<T: TableEntry>(es: Seq<T>) -> Seq<(Seq<char>, u64)> {
    es.map_values(|e: T| (e.entry_name(), e.entry_handle().0))
}

/// The name and handle value of each entry of one table of `doc`.
pub open spec fn table_keys(doc: CadDocument, kind: TableKind) -> Seq<(Seq<char>, u64)> {
    match kind {
        TableKind::Layers => entry_keys(doc.layers@),
        TableKind::LineTypes => entry_keys(doc.line_types@),
        TableKind::TextStyles => entry_keys(doc.text_styles@),
        TableKind::DimStyles => entry_keys(doc.dim_styles@),
        TableKind::AppIds => entry_keys(doc.app_ids@),
        TableKind::Views => entry_keys(doc.views@),
        TableKind::VPorts => entry_keys(doc.vports@),
        TableKind::Ucss => entry_keys(doc.ucss@),
        TableKind::VxTable => entry_keys(doc.vx_table@),
        TableKind::BlockRecords => entry_keys(doc.block_records@),
    }
}

/// The map of (table, name) to handle value that a list of entries
/// describes: a later entry of the same key wins.
pub open spec fn triples_map(t: Seq<(TableKind, String, u64)>) -> Map<(TableKind, Seq<char>), u64>
    decreases t.len(),
{
    if t.len() == 0 {
        Map::empty()
    } else {
        triples_map(t.drop_last()).insert((t.last().0, t.last().1@), t.last().2)
    }
}

/// `m` with the entries `ks` of table `kind` that have a handle: a later
/// entry of the same name wins.
pub open spec fn table_defaults(
    m: Map<(TableKind, Seq<char>), u64>,
    kind: TableKind,
    ks: Seq<(Seq<char>, u64)>,
) -> Map<(TableKind, Seq<char>), u64>
    decreases ks.len(),
{
    if ks.len() == 0 {
        m
    } else {
        let rest = table_defaults(m, kind, ks.drop_last());
        if ks.last().1 != 0 {
            rest.insert((kind, ks.last().0), ks.last().1)
        } else {
            rest
        }
    }
}

/// The handle of every entry of `doc` that has one, by table and exact
/// name.
pub open spec fn default_entry_map(doc: CadDocument) -> Map<(TableKind, Seq<char>), u64> {
    let m0 = Map::<(TableKind, Seq<char>), u64>::empty();
    let m1 = table_defaults(m0, TableKind::Layers, table_keys(doc, TableKind::Layers));
    let m2 = table_defaults(m1, TableKind::LineTypes, table_keys(doc, TableKind::LineTypes));
    let m3 = table_defaults(m2, TableKind::TextStyles, table_keys(doc, TableKind::TextStyles));
    let m4 = table_defaults(m3, TableKind::DimStyles, table_keys(doc, TableKind::DimStyles));
    let m5 = table_defaults(m4, TableKind::AppIds, table_keys(doc, TableKind::AppIds));
    let m6 = table_defaults(m5, TableKind::Views, table_keys(doc, TableKind::Views));
    let m7 = table_defaults(m6, TableKind::VPorts, table_keys(doc, TableKind::VPorts));
    let m8 = table_defaults(m7, TableKind::Ucss, table_keys(doc, TableKind::Ucss));
    let m9 = table_defaults(m8, TableKind::VxTable, table_keys(doc, TableKind::VxTable));
    table_defaults(m9, TableKind::BlockRecords, table_keys(doc, TableKind::BlockRecords))
}

/// The handles that a new drawing gave its table entries, by table and
/// entry name.
pub struct DefaultEntryHandles {
    entries: Vec<(TableKind, String, u64)>,
}

impl View for DefaultEntryHandles {
    type V = Map<(TableKind, Seq<char>), u64>;

    closed spec fn view(&self) -> Map<(TableKind, Seq<char>), u64> {
        triples_map(self.entries@)
    }
}

proof fn lemma_triples_map_suffix(t: Seq<(TableKind, String, u64)>, i: int, k: (TableKind, Seq<char>))
    requires
        0 <= i <= t.len(),
        forall|j: int| i <= j < t.len() ==> (#[trigger] t[j].0, t[j].1@) != k,
    ensures
        triples_map(t).contains_key(k) == triples_map(t.take(i)).contains_key(k),
        triples_map(t).contains_key(k) ==> triples_map(t)[k] == triples_map(t.take(i))[k],
    decreases t.len(),
{
    if i == t.len() {
        assert(t.take(i) =~= t);
    } else {
        let d = t.drop_last();
        assert(d.take(i) =~= t.take(i));
        assert forall|j: int| i <= j < d.len() implies (#[trigger] d[j].0, d[j].1@) != k by {
            assert(d[j] == t[j]);
        }
        lemma_triples_map_suffix(d, i, k);
        assert((t[t.len() - 1].0, t[t.len() - 1].1@) != k);
    }
}

impl DefaultEntryHandles {
    /// The handle recorded for the entry `name` of table `kind`.
    pub fn get(&self, kind: TableKind, name: &str) -> (r: Option<u64>)
        ensures
            r == (if self@.contains_key((kind, name@)) {
                Some(self@[(kind, name@)])
            } else {
                None::<u64>
            }),
    {
        let ghost t = self.entries@;
        let ghost k = (kind, name@);
        let mut i: usize = self.entries.len();
        while i > 0
            invariant
                i <= t.len(),
                t == self.entries@,
                k == (kind, name@),
                forall|j: int| i <= j < t.len() ==> (#[trigger] t[j].0, t[j].1@) != k,
            decreases i,
        {
            let e = &self.entries[i - 1];
            if e.0 == kind && same_text(e.1.as_str(), name) {
                proof {
                    lemma_triples_map_suffix(t, i as int, k);
                    assert(t.take(i as int).drop_last() =~= t.take(i - 1));
                    assert(t.take(i as int).last() == t[i - 1]);
                }
                return Some(e.2);
            }
            i = i - 1;
        }
        proof {
            lemma_triples_map_suffix(t, 0, k);
            assert(t.take(0) =~= Seq::<(TableKind, String, u64)>::empty());
        }
        None
    }

    /// No entry handle was recorded.
    pub fn is_empty(&self) -> (r: bool)
        ensures
            r == (self@ == Map::<(TableKind, Seq<char>), u64>::empty()),
    {
        proof {
            let t = self.entries@;
            if t.len() > 0 {
                assert(triples_map(t).contains_key((t.last().0, t.last().1@)));
                assert(!Map::<(TableKind, Seq<char>), u64>::empty().contains_key(
                    (t.last().0, t.last().1@),
                ));
            } else {
                assert(triples_map(t) =~= Map::<(TableKind, Seq<char>), u64>::empty());
            }
        }
        self.entries.len() == 0
    }
}

/// Record the handle of every entry of `table` that has one.
fn snapshot_table<T: TableEntry>(
    out: &mut Vec<(TableKind, String, u64)>,
    kind: TableKind,
    table: &Vec<T>,
)
    ensures
        triples_map(final(out)@) == table_defaults(triples_map(old(out)@), kind, entry_keys(table@)),
{
    let ghost m0 = triples_map(out@);
    let mut i: usize = 0;
    while i < table.len()
        invariant
            i <= table@.len(),
            triples_map(out@) == table_defaults(m0, kind, entry_keys(table@.take(i as int))),
        decreases table@.len() - i,
    {
        let entry = &table[i];
        let handle = entry.handle().0;
        proof {
            assert(entry_keys(table@.take(i + 1)).drop_last() =~= entry_keys(table@.take(i as int)));
            assert(entry_keys(table@.take(i + 1)).last() == (entry.entry_name(), handle));
        }
        if handle != 0 {
            let ghost before = out@;
            out.push((kind, owned(entry.name()), handle));
            proof {
                assert(out@.drop_last() =~= before);
            }
        }
        i = i + 1;
    }
    assert(table@.take(table@.len() as int) =~= table@);
}

/// Record the handles that `document` gave its table entries, by table
/// and exact entry name.
pub fn snapshot_default_entry_handles(document: &CadDocument) -> (r: DefaultEntryHandles)
    ensures
        r@ == default_entry_map(*document),
{
    let mut entries: Vec<(TableKind, String, u64)> = Vec::new();
    assert(triples_map(entries@) =~= Map::<(TableKind, Seq<char>), u64>::empty());
    snapshot_table(&mut entries, TableKind::Layers, &document.layers);
    snapshot_table(&mut entries, TableKind::LineTypes, &document.line_types);
    snapshot_table(&mut entries, TableKind::TextStyles, &document.text_styles);
    snapshot_table(&mut entries, TableKind::DimStyles, &document.dim_styles);
    snapshot_table(&mut entries, TableKind::AppIds, &document.app_ids);
    snapshot_table(&mut entries, TableKind::Views, &document.views);
    snapshot_table(&mut entries, TableKind::VPorts, &document.vports);
    snapshot_table(&mut entries, TableKind::Ucss, &document.ucss);
    snapshot_table(&mut entries, TableKind::VxTable, &document.vx_table);
    snapshot_table(&mut entries, TableKind::BlockRecords, &document.block_records);
    DefaultEntryHandles { entries }
}

/// How often `h` occurs in `s`.
pub open spec fn occurrences(s: Seq<u64>, h: u64) -> nat
    decreases s.len(),
{
    if s.len() == 0 {
        0
    } else {
        occurrences(s.drop_last(), h) + if s.last() == h {
            1nat
        } else {
            0nat
        }
    }
}

proof fn lemma_occurrences_push(s: Seq<u64>, x: u64, h: u64)
    ensures
        occurrences(s.push(x), h) == occurrences(s, h) + if x == h {
            1nat
        } else {
            0nat
        },
{
    assert(s.push(x).drop_last() =~= s);
}

/// The handle values of named entries.
pub open spec fn key_handles(ks: Seq<(Seq<char>, u64)>) -> Seq<u64> {
    ks.map_values(|k: (Seq<char>, u64)| k.1)
}

/// The handles of the BLOCK and ENDBLK placeholders of each block record.
pub open spec fn placeholder_handles(brs: Seq<BlockRecord>) -> Seq<u64>
    decreases brs.len(),
{
    if brs.len() == 0 {
        seq![]
    } else {
        placeholder_handles(brs.drop_last()) + seq![
            brs.last().block_entity_handle.0,
            brs.last().block_end_handle.0,
        ]
    }
}

/// Every handle that a written file holds for a record of its own, with
/// the tables `t` and the entities and objects of `doc`: the table entries
/// (table by table), the block placeholders, the entities and the objects.
pub open spec fn written_in(t: TablesView, doc: CadDocument) -> Seq<u64> {
    key_handles(entry_keys(t.layers)) + key_handles(entry_keys(t.line_types)) + key_handles(
        entry_keys(t.text_styles),
    ) + key_handles(entry_keys(t.dim_styles)) + key_handles(entry_keys(t.app_ids)) + key_handles(
        entry_keys(t.views),
    ) + key_handles(entry_keys(t.vports)) + key_handles(entry_keys(t.ucss)) + key_handles(
        entry_keys(t.vx_table),
    ) + key_handles(entry_keys(t.block_records)) + placeholder_handles(t.block_records)
        + doc.entities@.map_values(|e: EntityRecord| e.handle.0) + doc.objects@.map_values(
        |o: (Handle, ObjectType)| o.0.0,
    )
}

/// Every handle that a written file of `doc` holds for a record of its
/// own.
pub open spec fn written_handles(doc: CadDocument) -> Seq<u64> {
    written_in(tables_of(doc), doc)
}

/// `m` counts the non-null handles of `seen` (a count past `usize::MAX`
/// stays there).
pub open spec fn counts(m: Map<u64, usize>, seen: Seq<u64>) -> bool {
    &&& !m.contains_key(0)
    &&& forall|h: u64| h != 0 ==> (#[trigger] m.contains_key(h) <==> occurrences(seen, h) > 0)
    &&& forall|h: u64|
        #[trigger] m.contains_key(h) ==> m[h] as int == if occurrences(seen, h) > usize::MAX {
            usize::MAX as int
        } else {
            occurrences(seen, h) as int
        }
}

fn count_handle(usage: &mut HashMap<u64, usize>, h: u64, Ghost(seen): Ghost<Seq<u64>>)
    requires
        counts(old(usage)@, seen),
    ensures
        counts(final(usage)@, seen.push(h)),
{
    proof {
        assert forall|y: u64| occurrences(seen.push(h), y) == occurrences(seen, y) + if h == y {
            1nat
        } else {
            0nat
        } by {
            lemma_occurrences_push(seen, h, y);
        }
    }
    if h != 0 {
        let n: usize = match usage.get(&h) {
            Some(c) => *c,
            None => 0,
        };
        usage.insert(h, n.saturating_add(1));
    }
}

fn count_table<T: TableEntry>(usage: &mut HashMap<u64, usize>, table: &Vec<T>, Ghost(seen): Ghost<Seq<u64>>)
    requires
        counts(old(usage)@, seen),
    ensures
        counts(final(usage)@, seen + key_handles(entry_keys(table@))),
{
    let mut i: usize = 0;
    while i < table.len()
        invariant
            i <= table@.len(),
            counts(usage@, seen + key_handles(entry_keys(table@.take(i as int)))),
        decreases table@.len() - i,
    {
        let h = table[i].handle().0;
        proof {
            assert((seen + key_handles(entry_keys(table@.take(i as int)))).push(h) =~= seen
                + key_handles(entry_keys(table@.take(i + 1))));
        }
        count_handle(usage, h, Ghost(seen + key_handles(entry_keys(table@.take(i as int)))));
        i = i + 1;
    }
    assert(table@.take(table@.len() as int) =~= table@);
}

fn count_placeholders(usage: &mut HashMap<u64, usize>, brs: &Vec<BlockRecord>, Ghost(seen): Ghost<Seq<u64>>)
    requires
        counts(old(usage)@, seen),
    ensures
        counts(final(usage)@, seen + placeholder_handles(brs@)),
{
    let mut i: usize = 0;
    while i < brs.len()
        invariant
            i <= brs@.len(),
            counts(usage@, seen + placeholder_handles(brs@.take(i as int))),
        decreases brs@.len() - i,
    {
        let a = brs[i].block_entity_handle.0;
        let b = brs[i].block_end_handle.0;
        let ghost before = seen + placeholder_handles(brs@.take(i as int));
        proof {
            assert(brs@.take(i + 1).drop_last() =~= brs@.take(i as int));
            assert(before.push(a).push(b) =~= seen + placeholder_handles(brs@.take(i + 1)));
        }
        count_handle(usage, a, Ghost(before));
        count_handle(usage, b, Ghost(before.push(a)));
        i = i + 1;
    }
    assert(brs@.take(brs@.len() as int) =~= brs@);
}

/// Count how often each handle occurs among the records a written file
/// holds.
fn count_usage(document: &CadDocument) -> (r: HashMap<u64, usize>)
    ensures
        counts(r@, written_handles(*document)),
{
    let mut usage: HashMap<u64, usize> = HashMap::new();
    let ghost s0 = Seq::<u64>::empty();
    proof {
        assert forall|h: u64| !(#[trigger] usage@.contains_key(h)) by {}
    }
    count_table(&mut usage, &document.layers, Ghost(s0));
    let ghost s1 = s0 + key_handles(entry_keys(document.layers@));
    count_table(&mut usage, &document.line_types, Ghost(s1));
    let ghost s2 = s1 + key_handles(entry_keys(document.line_types@));
    count_table(&mut usage, &document.text_styles, Ghost(s2));
    let ghost s3 = s2 + key_handles(entry_keys(document.text_styles@));
    count_table(&mut usage, &document.dim_styles, Ghost(s3));
    let ghost s4 = s3 + key_handles(entry_keys(document.dim_styles@));
    count_table(&mut usage, &document.app_ids, Ghost(s4));
    let ghost s5 = s4 + key_handles(entry_keys(document.app_ids@));
    count_table(&mut usage, &document.views, Ghost(s5));
    let ghost s6 = s5 + key_handles(entry_keys(document.views@));
    count_table(&mut usage, &document.vports, Ghost(s6));
    let ghost s7 = s6 + key_handles(entry_keys(document.vports@));
    count_table(&mut usage, &document.ucss, Ghost(s7));
    let ghost s8 = s7 + key_handles(entry_keys(document.ucss@));
    count_table(&mut usage, &document.vx_table, Ghost(s8));
    let ghost s9 = s8 + key_handles(entry_keys(document.vx_table@));
    count_table(&mut usage, &document.block_records, Ghost(s9));
    let ghost s10 = s9 + key_handles(entry_keys(document.block_records@));
    count_placeholders(&mut usage, &document.block_records, Ghost(s10));
    let ghost s11 = s10 + placeholder_handles(document.block_records@);
    let mut i: usize = 0;
    while i < document.entities.len()
        invariant
            i <= document.entities@.len(),
            counts(usage@, s11 + document.entities@.take(i as int).map_values(|e: EntityRecord| e.handle.0)),
        decreases document.entities@.len() - i,
    {
        let h = document.entities[i].handle.0;
        let ghost before = s11 + document.entities@.take(i as int).map_values(|e: EntityRecord| e.handle.0);
        proof {
            assert(before.push(h) =~= s11 + document.entities@.take(i + 1).map_values(
                |e: EntityRecord| e.handle.0,
            ));
        }
        count_handle(&mut usage, h, Ghost(before));
        i = i + 1;
    }
    assert(document.entities@.take(document.entities@.len() as int) =~= document.entities@);
    let ghost s12 = s11 + document.entities@.map_values(|e: EntityRecord| e.handle.0);
    let mut j: usize = 0;
    while j < document.objects.len()
        invariant
            j <= document.objects@.len(),
            counts(
                usage@,
                s12 + document.objects@.take(j as int).map_values(|o: (Handle, ObjectType)| o.0.0),
            ),
        decreases document.objects@.len() - j,
    {
        let h = document.objects[j].0.0;
        let ghost before = s12 + document.objects@.take(j as int).map_values(
            |o: (Handle, ObjectType)| o.0.0,
        );
        proof {
            assert(before.push(h) =~= s12 + document.objects@.take(j + 1).map_values(
                |o: (Handle, ObjectType)| o.0.0,
            ));
        }
        count_handle(&mut usage, h, Ghost(before));
        j = j + 1;
    }
    assert(document.objects@.take(document.objects@.len() as int) =~= document.objects@);
    assert(s12 + document.objects@.map_values(|o: (Handle, ObjectType)| o.0.0) =~= written_handles(
        *document,
    ));
    usage
}

/// The entry `name` of table `kind`, with handle value `h`, kept the
/// handle a new drawing gave it (`defaults`), and the file reused that
/// handle for a record of its own (it occurs more than once in `written`).
pub open spec fn collides(
    defaults: Map<(TableKind, Seq<char>), u64>,
    written: Seq<u64>,
    kind: TableKind,
    name: Seq<char>,
    h: u64,
) -> bool {
    &&& h != 0
    &&& defaults.contains_key((kind, name))
    &&& defaults[(kind, name)] == h
    &&& occurrences(written, h) > 1
}

/// The colliding entries among `ks` of table `kind`, in table order.
pub open spec fn table_moves(
    defaults: Map<(TableKind, Seq<char>), u64>,
    written: Seq<u64>,
    kind: TableKind,
    ks: Seq<(Seq<char>, u64)>,
) -> Seq<(TableKind, Seq<char>, u64)>
    decreases ks.len(),
{
    if ks.len() == 0 {
        seq![]
    } else {
        let rest = table_moves(defaults, written, kind, ks.drop_last());
        if collides(defaults, written, kind, ks.last().0, ks.last().1) {
            rest.push((kind, ks.last().0, ks.last().1))
        } else {
            rest
        }
    }
}

/// The colliding entries of `doc`, table by table: (table, name, handle).
pub open spec fn moves_of(doc: CadDocument, defaults: Map<(TableKind, Seq<char>), u64>) -> Seq<
    (TableKind, Seq<char>, u64),
> {
    let w = written_handles(doc);
    table_moves(defaults, w, TableKind::Layers, table_keys(doc, TableKind::Layers)) + table_moves(
        defaults,
        w,
        TableKind::LineTypes,
        table_keys(doc, TableKind::LineTypes),
    ) + table_moves(defaults, w, TableKind::TextStyles, table_keys(doc, TableKind::TextStyles))
        + table_moves(defaults, w, TableKind::DimStyles, table_keys(doc, TableKind::DimStyles))
        + table_moves(defaults, w, TableKind::AppIds, table_keys(doc, TableKind::AppIds))
        + table_moves(defaults, w, TableKind::Views, table_keys(doc, TableKind::Views))
        + table_moves(defaults, w, TableKind::VPorts, table_keys(doc, TableKind::VPorts))
        + table_moves(defaults, w, TableKind::Ucss, table_keys(doc, TableKind::Ucss))
        + table_moves(defaults, w, TableKind::VxTable, table_keys(doc, TableKind::VxTable))
        + table_moves(defaults, w, TableKind::BlockRecords, table_keys(doc, TableKind::BlockRecords))
}

/// The moves as table, name and handle value.
pub open spec fn moves_view(ms: Seq<(TableKind, String, u64)>) -> Seq<(TableKind, Seq<char>, u64)> {
    ms.map_values(|m: (TableKind, String, u64)| (m.0, m.1@, m.2))
}

fn collect_moves<T: TableEntry>(
    moves: &mut Vec<(TableKind, String, u64)>,
    defaults: &DefaultEntryHandles,
    usage: &HashMap<u64, usize>,
    Ghost(written): Ghost<Seq<u64>>,
    kind: TableKind,
    table: &Vec<T>,
)
    requires
        counts(usage@, written),
    ensures
        moves_view(final(moves)@) == moves_view(old(moves)@) + table_moves(
            defaults@,
            written,
            kind,
            entry_keys(table@),
        ),
{
    let ghost start = moves_view(moves@);
    let mut i: usize = 0;
    while i < table.len()
        invariant
            i <= table@.len(),
            counts(usage@, written),
            moves_view(moves@) == start + table_moves(
                defaults@,
                written,
                kind,
                entry_keys(table@.take(i as int)),
            ),
        decreases table@.len() - i,
    {
        let entry = &table[i];
        let h = entry.handle().0;
        let name = entry.name();
        proof {
            assert(entry_keys(table@.take(i + 1)).drop_last() =~= entry_keys(table@.take(i as int)));
            assert(entry_keys(table@.take(i + 1)).last() == (name@, h));
        }
        let reused = match usage.get(&h) {
            Some(c) => *c > 1,
            None => false,
        };
        let is_default = match defaults.get(kind, name) {
            Some(d) => d == h,
            None => false,
        };
        if h != 0 && is_default && reused {
            let ghost before = moves@;
            moves.push((kind, owned(name), h));
            proof {
                assert(moves_view(moves@) =~= moves_view(before).push((kind, name@, h)));
            }
        }
        i = i + 1;
    }
    assert(table@.take(table@.len() as int) =~= table@);
}

/// The colliding entries of `document`, table by table.
fn colliding_entries(
    document: &CadDocument,
    defaults: &DefaultEntryHandles,
    usage: &HashMap<u64, usize>,
) -> (r: Vec<(TableKind, String, u64)>)
    requires
        counts(usage@, written_handles(*document)),
    ensures
        moves_view(r@) == moves_of(*document, defaults@),
{
    let ghost w = written_handles(*document);
    let mut moves: Vec<(TableKind, String, u64)> = Vec::new();
    assert(moves_view(moves@) =~= Seq::<(TableKind, Seq<char>, u64)>::empty());
    collect_moves(&mut moves, defaults, usage, Ghost(w), TableKind::Layers, &document.layers);
    collect_moves(&mut moves, defaults, usage, Ghost(w), TableKind::LineTypes, &document.line_types);
    collect_moves(&mut moves, defaults, usage, Ghost(w), TableKind::TextStyles, &document.text_styles);
    collect_moves(&mut moves, defaults, usage, Ghost(w), TableKind::DimStyles, &document.dim_styles);
    collect_moves(&mut moves, defaults, usage, Ghost(w), TableKind::AppIds, &document.app_ids);
    collect_moves(&mut moves, defaults, usage, Ghost(w), TableKind::Views, &document.views);
    collect_moves(&mut moves, defaults, usage, Ghost(w), TableKind::VPorts, &document.vports);
    collect_moves(&mut moves, defaults, usage, Ghost(w), TableKind::Ucss, &document.ucss);
    collect_moves(&mut moves, defaults, usage, Ghost(w), TableKind::VxTable, &document.vx_table);
    collect_moves(&mut moves, defaults, usage, Ghost(w), TableKind::BlockRecords, &document.block_records);
    assert(moves_view(moves@) =~= moves_of(*document, defaults@));
    moves
}

/// The header and symbol tables of a drawing, as values.
pub struct TablesView {
    pub header: Header,
    pub layers: Seq<Layer>,
    pub line_types: Seq<LineType>,
    pub text_styles: Seq<NamedEntry>,
    pub dim_styles: Seq<DimStyle>,
    pub app_ids: Seq<NamedEntry>,
    pub views: Seq<NamedEntry>,
    pub vports: Seq<NamedEntry>,
    pub ucss: Seq<NamedEntry>,
    pub vx_table: Seq<NamedEntry>,
    pub block_records: Seq<BlockRecord>,
}

/// The header and symbol tables of `doc`.
pub open spec fn tables_of(doc: CadDocument) -> TablesView {
    TablesView {
        header: doc.header,
        layers: doc.layers@,
        line_types: doc.line_types@,
        text_styles: doc.text_styles@,
        dim_styles: doc.dim_styles@,
        app_ids: doc.app_ids@,
        views: doc.views@,
        vports: doc.vports@,
        ucss: doc.ucss@,
        vx_table: doc.vx_table@,
        block_records: doc.block_records@,
    }
}

/// `a` and `b` agree on everything but the header and the symbol tables.
pub open spec fn same_rest(a: CadDocument, b: CadDocument) -> bool {
    &&& a.layer_table_handle == b.layer_table_handle
    &&& a.classes == b.classes
    &&& a.entities == b.entities
    &&& a.objects == b.objects
    &&& a.xdic_by_handle == b.xdic_by_handle
}

/// The entry named `name`, ignoring ASCII case.
pub open spec fn named<T: TableEntry>(name: Seq<char>) -> spec_fn(T) -> bool {
    |e: T| eq_ignore_case(e.entry_name(), name)
}

/// `es` with the first entry named `name` (ASCII case ignored) given
/// handle `h`.
pub open spec fn with_named_handle<T: TableEntry>(es: Seq<T>, name: Seq<char>, h: Handle) -> Seq<T> {
    let i = first_index(es, named::<T>(name));
    if i >= 0 {
        es.update(i, es[i].with_handle(h))
    } else {
        es
    }
}

/// `h`, or `new` where `h` is the handle `stale`.
pub open spec fn follow(h: Handle, stale: u64, new: Handle) -> Handle {
    if h.0 == stale {
        new
    } else {
        h
    }
}

/// The header with every table reference to the handle `stale` moved to
/// `new`.
pub open spec fn follow_header(hd: Header, stale: u64, new: Handle) -> Header {
    Header {
        current_layer_handle: follow(hd.current_layer_handle, stale, new),
        continuous_linetype_handle: follow(hd.continuous_linetype_handle, stale, new),
        bylayer_linetype_handle: follow(hd.bylayer_linetype_handle, stale, new),
        current_linetype_handle: follow(hd.current_linetype_handle, stale, new),
        byblock_linetype_handle: follow(hd.byblock_linetype_handle, stale, new),
        current_text_style_handle: follow(hd.current_text_style_handle, stale, new),
        dim_text_style_handle: follow(hd.dim_text_style_handle, stale, new),
        current_dimstyle_handle: follow(hd.current_dimstyle_handle, stale, new),
        model_space_block_handle: follow(hd.model_space_block_handle, stale, new),
        paper_space_block_handle: follow(hd.paper_space_block_handle, stale, new),
        dim_linetype_handle: follow(hd.dim_linetype_handle, stale, new),
        dim_linetype1_handle: follow(hd.dim_linetype1_handle, stale, new),
        dim_linetype2_handle: follow(hd.dim_linetype2_handle, stale, new),
        ..hd
    }
}

/// The dimension styles with every text-style reference to the handle
/// `stale` moved to `new`.
pub open spec fn follow_text_styles(ds: Seq<DimStyle>, stale: u64, new: Handle) -> Seq<DimStyle> {
    ds.map_values(|d: DimStyle| DimStyle { dimtxsty_handle: follow(d.dimtxsty_handle, stale, new), ..d })
}

/// The tables with the entry `name` of table `kind` given handle `h`.
pub open spec fn with_entry_handle(t: TablesView, kind: TableKind, name: Seq<char>, h: Handle) -> TablesView {
    match kind {
        TableKind::Layers => TablesView { layers: with_named_handle(t.layers, name, h), ..t },
        TableKind::LineTypes => TablesView { line_types: with_named_handle(t.line_types, name, h), ..t },
        TableKind::TextStyles => TablesView { text_styles: with_named_handle(t.text_styles, name, h), ..t },
        TableKind::DimStyles => TablesView { dim_styles: with_named_handle(t.dim_styles, name, h), ..t },
        TableKind::AppIds => TablesView { app_ids: with_named_handle(t.app_ids, name, h), ..t },
        TableKind::Views => TablesView { views: with_named_handle(t.views, name, h), ..t },
        TableKind::VPorts => TablesView { vports: with_named_handle(t.vports, name, h), ..t },
        TableKind::Ucss => TablesView { ucss: with_named_handle(t.ucss, name, h), ..t },
        TableKind::VxTable => TablesView { vx_table: with_named_handle(t.vx_table, name, h), ..t },
        TableKind::BlockRecords => TablesView {
            block_records: with_named_handle(t.block_records, name, h),
            ..t
        },
    }
}

/// One move: the entry gets the next handle, and the header and the
/// dimension styles that referred to its stale handle follow it.
pub open spec fn apply_move(t: TablesView, m: (TableKind, Seq<char>, u64)) -> TablesView {
    let new = Handle(t.header.handle_seed);
    let t1 = TablesView {
        header: Header { handle_seed: (t.header.handle_seed + 1) as u64, ..t.header },
        ..t
    };
    let t2 = with_entry_handle(t1, m.0, m.1, new);
    let t3 = TablesView { header: follow_header(t2.header, m.2, new), ..t2 };
    TablesView { dim_styles: follow_text_styles(t3.dim_styles, m.2, new), ..t3 }
}

/// The moves applied in order.
pub open spec fn moved(t: TablesView, ms: Seq<(TableKind, Seq<char>, u64)>) -> TablesView
    decreases ms.len(),
{
    if ms.len() == 0 {
        t
    } else {
        apply_move(moved(t, ms.drop_last()), ms.last())
    }
}

/// Give the first entry named `name` (ASCII case ignored) handle `h`.
fn set_named_handle<T: TableEntry>(es: &mut Vec<T>, name: &str, h: Handle)
    ensures
        final(es)@ == with_named_handle(old(es)@, name@, h),
{
    let mut i: usize = 0;
    while i < es.len()
        invariant
            i <= es@.len(),
            es@ == old(es)@,
            forall|j: int| 0 <= j < i ==> !(#[trigger] named::<T>(name@)(es@[j])),
        decreases es@.len() - i,
    {
        if eq_ignore_ascii_case(es[i].name(), name) {
            proof {
                lemma_first_index_is(es@, named::<T>(name@), i as int);
            }
            let mut e = es.remove(i);
            e.set_handle(h);
            es.insert(i, e);
            proof {
                assert(es@ =~= old(es)@.update(i as int, old(es)@[i as int].with_handle(h)));
            }
            return;
        }
        i = i + 1;
    }
    proof {
        lemma_first_index_none(es@, named::<T>(name@));
    }
}

/// Move every table reference of the header to `stale` on to `new`.
fn follow_header_refs(header: &mut Header, stale: u64, new: Handle)
    ensures
        *final(header) == follow_header(*old(header), stale, new),
{
    if header.current_layer_handle.0 == stale {
        header.current_layer_handle = new;
    }
    if header.continuous_linetype_handle.0 == stale {
        header.continuous_linetype_handle = new;
    }
    if header.bylayer_linetype_handle.0 == stale {
        header.bylayer_linetype_handle = new;
    }
    if header.current_linetype_handle.0 == stale {
        header.current_linetype_handle = new;
    }
    if header.byblock_linetype_handle.0 == stale {
        header.byblock_linetype_handle = new;
    }
    if header.current_text_style_handle.0 == stale {
        header.current_text_style_handle = new;
    }
    if header.dim_text_style_handle.0 == stale {
        header.dim_text_style_handle = new;
    }
    if header.current_dimstyle_handle.0 == stale {
        header.current_dimstyle_handle = new;
    }
    if header.model_space_block_handle.0 == stale {
        header.model_space_block_handle = new;
    }
    if header.paper_space_block_handle.0 == stale {
        header.paper_space_block_handle = new;
    }
    if header.dim_linetype_handle.0 == stale {
        header.dim_linetype_handle = new;
    }
    if header.dim_linetype1_handle.0 == stale {
        header.dim_linetype1_handle = new;
    }
    if header.dim_linetype2_handle.0 == stale {
        header.dim_linetype2_handle = new;
    }
}

/// Move every text-style reference of the dimension styles to `stale` on
/// to `new`.
fn follow_text_style_refs(ds: &mut Vec<DimStyle>, stale: u64, new: Handle)
    ensures
        final(ds)@ == follow_text_styles(old(ds)@, stale, new),
{
    let ghost start = ds@;
    let mut i: usize = 0;
    while i < ds.len()
        invariant
            i <= ds@.len(),
            ds@.len() == start.len(),
            forall|j: int| 0 <= j < i ==> #[trigger] ds@[j] == follow_text_styles(start, stale, new)[j],
            forall|j: int| i <= j < ds@.len() ==> #[trigger] ds@[j] == start[j],
        decreases ds@.len() - i,
    {
        if ds[i].dimtxsty_handle.0 == stale {
            let mut d = ds.remove(i);
            d.dimtxsty_handle = new;
            ds.insert(i, d);
        }
        i = i + 1;
    }
    assert(ds@ =~= follow_text_styles(start, stale, new));
}

/// Apply one move to the drawing.
fn apply_one_move(document: &mut CadDocument, kind: TableKind, name: &str, stale: u64)
    requires
        old(document).header.handle_seed < u64::MAX,
    ensures
        tables_of(*final(document)) == apply_move(tables_of(*old(document)), (kind, name@, stale)),
        same_rest(*final(document), *old(document)),
{
    let new = document.allocate_handle();
    match kind {
        TableKind::Layers => set_named_handle(&mut document.layers, name, new),
        TableKind::LineTypes => set_named_handle(&mut document.line_types, name, new),
        TableKind::TextStyles => set_named_handle(&mut document.text_styles, name, new),
        TableKind::DimStyles => set_named_handle(&mut document.dim_styles, name, new),
        TableKind::AppIds => set_named_handle(&mut document.app_ids, name, new),
        TableKind::Views => set_named_handle(&mut document.views, name, new),
        TableKind::VPorts => set_named_handle(&mut document.vports, name, new),
        TableKind::Ucss => set_named_handle(&mut document.ucss, name, new),
        TableKind::VxTable => set_named_handle(&mut document.vx_table, name, new),
        TableKind::BlockRecords => set_named_handle(&mut document.block_records, name, new),
    }
    follow_header_refs(&mut document.header, stale, new);
    follow_text_style_refs(&mut document.dim_styles, stale, new);
}

/// `h` is the handle of one of the text styles `ts`.
pub open spec fn resolves(ts: Seq<NamedEntry>, h: Handle) -> bool {
    exists|j: int| 0 <= j < ts.len() && #[trigger] ts[j].handle.0 == h.0
}

/// The names of the dimension styles whose text style is set but is none
/// of the text styles `ts`, in table order.
pub open spec fn stale_names(ds: Seq<DimStyle>, ts: Seq<NamedEntry>) -> Seq<Seq<char>>
    decreases ds.len(),
{
    if ds.len() == 0 {
        seq![]
    } else {
        let rest = stale_names(ds.drop_last(), ts);
        let d = ds.last();
        if d.dimtxsty_handle.0 != 0 && !resolves(ts, d.dimtxsty_handle) {
            rest.push(d.name@)
        } else {
            rest
        }
    }
}

/// `ds` with the text style of the first style named `name` (ASCII case
/// ignored) set to `h`.
pub open spec fn with_named_text_style(ds: Seq<DimStyle>, name: Seq<char>, h: Handle) -> Seq<DimStyle> {
    let i = first_index(ds, named::<DimStyle>(name));
    if i >= 0 {
        ds.update(i, DimStyle { dimtxsty_handle: h, ..ds[i] })
    } else {
        ds
    }
}

/// The dimension style `name` pointed at the text style of the same name,
/// when there is one.
pub open spec fn rewire_name(ds: Seq<DimStyle>, ts: Seq<NamedEntry>, name: Seq<char>) -> Seq<DimStyle> {
    match first_match(ts, named::<NamedEntry>(name)) {
        Some(t) => with_named_text_style(ds, name, t.handle),
        None => ds,
    }
}

/// The dimension styles `names` rewired in order.
pub open spec fn rewire_all(ds: Seq<DimStyle>, ts: Seq<NamedEntry>, names: Seq<Seq<char>>) -> Seq<DimStyle>
    decreases names.len(),
{
    if names.len() == 0 {
        ds
    } else {
        rewire_name(rewire_all(ds, ts, names.drop_last()), ts, names.last())
    }
}

/// The dimension styles after their stale text-style references are
/// pointed at the text style of the same name.
pub open spec fn rewired_styles(ds: Seq<DimStyle>, ts: Seq<NamedEntry>) -> Seq<DimStyle> {
    rewire_all(ds, ts, stale_names(ds, ts))
}

/// Position of the first entry named `name` (ASCII case ignored).
fn find_named<T: TableEntry>(es: &Vec<T>, name: &str) -> (r: Option<usize>)
    ensures
        match r {
            Some(i) => i as int == first_index(es@, named::<T>(name@)) && i < es@.len(),
            None => first_index(es@, named::<T>(name@)) == -1,
        },
{
    let mut i: usize = 0;
    while i < es.len()
        invariant
            i <= es@.len(),
            forall|j: int| 0 <= j < i ==> !(#[trigger] named::<T>(name@)(es@[j])),
        decreases es@.len() - i,
    {
        if eq_ignore_ascii_case(es[i].name(), name) {
            proof {
                lemma_first_index_is(es@, named::<T>(name@), i as int);
            }
            return Some(i);
        }
        i = i + 1;
    }
    proof {
        lemma_first_index_none(es@, named::<T>(name@));
    }
    None
}

/// Whether some text style has the handle value `h`.
fn has_text_style(ts: &Vec<NamedEntry>, h: u64) -> (r: bool)
    ensures
        r == resolves(ts@, Handle(h)),
{
    let mut i: usize = 0;
    while i < ts.len()
        invariant
            i <= ts@.len(),
            forall|j: int| 0 <= j < i ==> #[trigger] ts@[j].handle.0 != h,
        decreases ts@.len() - i,
    {
        if ts[i].handle.0 == h {
            assert(ts@[i as int].handle.0 == Handle(h).0);
            return true;
        }
        i = i + 1;
    }
    false
}

/// Re-point the dimension styles whose text-style reference no longer
/// resolves to a text style at the text style of their own name (ASCII
/// case ignored); where there is none, the reference stays as it is.
pub fn rewire_stale_dimstyle_text_styles(document: &mut CadDocument)
    ensures
        final(document).dim_styles@ == rewired_styles(old(document).dim_styles@, old(document).text_styles@),
        *final(document) == (CadDocument { dim_styles: final(document).dim_styles, ..*old(document) }),
{
    let ghost ds0 = document.dim_styles@;
    let ghost ts = document.text_styles@;
    let mut stale: Vec<String> = Vec::new();
    let mut i: usize = 0;
    while i < document.dim_styles.len()
        invariant
            i <= ds0.len(),
            document.dim_styles@ == ds0,
            document.text_styles@ == ts,
            stale@.map_values(|s: String| s@) == stale_names(ds0.take(i as int), ts),
        decreases ds0.len() - i,
    {
        let style = &document.dim_styles[i];
        let h = style.dimtxsty_handle;
        proof {
            assert(ds0.take(i + 1).drop_last() =~= ds0.take(i as int));
        }
        if h.0 != 0 && !has_text_style(&document.text_styles, h.0) {
            let ghost before = stale@;
            stale.push(owned(style.name.as_str()));
            proof {
                assert(stale@.map_values(|s: String| s@) =~= before.map_values(|s: String| s@).push(
                    style.name@,
                ));
            }
        }
        i = i + 1;
    }
    assert(ds0.take(ds0.len() as int) =~= ds0);
    let ghost names = stale@.map_values(|s: String| s@);
    let ghost rest0 = *document;
    let mut k: usize = 0;
    while k < stale.len()
        invariant
            k <= stale@.len(),
            names == stale@.map_values(|s: String| s@),
            names == stale_names(ds0, ts),
            document.text_styles@ == ts,
            document.dim_styles@ == rewire_all(ds0, ts, names.take(k as int)),
            *document == (CadDocument { dim_styles: document.dim_styles, ..rest0 }),
        decreases stale@.len() - k,
    {
        let name = stale[k].as_str();
        proof {
            assert(names.take(k + 1).drop_last() =~= names.take(k as int));
            assert(names.take(k + 1).last() == name@);
        }
        let ghost before = document.dim_styles@;
        match find_named(&document.text_styles, name) {
            Some(t) => {
                proof {
                    lemma_first_index_facts(ts, named::<NamedEntry>(name@));
                    assert(first_match(ts, named::<NamedEntry>(name@)) == Some(ts[t as int]));
                }
                let new = document.text_styles[t].handle;
                match find_named(&document.dim_styles, name) {
                    Some(j) => {
                        let mut d = document.dim_styles.remove(j);
                        d.dimtxsty_handle = new;
                        document.dim_styles.insert(j, d);
                        proof {
                            assert(document.dim_styles@ =~= with_named_text_style(before, name@, new));
                        }
                    },
                    None => {},
                }
            },
            None => {
                proof {
                    lemma_first_index_facts(ts, named::<NamedEntry>(name@));
                }
            },
        }
        k = k + 1;
    }
    assert(names.take(names.len() as int) =~= names);
}

/// How many entries the symbol tables hold in all.
pub open spec fn table_entry_count(doc: CadDocument) -> nat {
    doc.layers@.len() + doc.line_types@.len() + doc.text_styles@.len() + doc.dim_styles@.len()
        + doc.app_ids@.len() + doc.views@.len() + doc.vports@.len() + doc.ucss@.len()
        + doc.vx_table@.len() + doc.block_records@.len()
}

proof fn lemma_table_moves_len(
    defaults: Map<(TableKind, Seq<char>), u64>,
    written: Seq<u64>,
    kind: TableKind,
    ks: Seq<(Seq<char>, u64)>,
)
    ensures
        table_moves(defaults, written, kind, ks).len() <= ks.len(),
    decreases ks.len(),
{
    if ks.len() > 0 {
        lemma_table_moves_len(defaults, written, kind, ks.drop_last());
    }
}

proof fn lemma_moves_len(doc: CadDocument, defaults: Map<(TableKind, Seq<char>), u64>)
    ensures
        moves_of(doc, defaults).len() <= table_entry_count(doc),
{
    let w = written_handles(doc);
    lemma_table_moves_len(defaults, w, TableKind::Layers, table_keys(doc, TableKind::Layers));
    lemma_table_moves_len(defaults, w, TableKind::LineTypes, table_keys(doc, TableKind::LineTypes));
    lemma_table_moves_len(defaults, w, TableKind::TextStyles, table_keys(doc, TableKind::TextStyles));
    lemma_table_moves_len(defaults, w, TableKind::DimStyles, table_keys(doc, TableKind::DimStyles));
    lemma_table_moves_len(defaults, w, TableKind::AppIds, table_keys(doc, TableKind::AppIds));
    lemma_table_moves_len(defaults, w, TableKind::Views, table_keys(doc, TableKind::Views));
    lemma_table_moves_len(defaults, w, TableKind::VPorts, table_keys(doc, TableKind::VPorts));
    lemma_table_moves_len(defaults, w, TableKind::Ucss, table_keys(doc, TableKind::Ucss));
    lemma_table_moves_len(defaults, w, TableKind::VxTable, table_keys(doc, TableKind::VxTable));
    lemma_table_moves_len(defaults, w, TableKind::BlockRecords, table_keys(doc, TableKind::BlockRecords));
}

proof fn lemma_moved_seed(t: TablesView, ms: Seq<(TableKind, Seq<char>, u64)>)
    requires
        t.header.handle_seed + ms.len() <= u64::MAX,
    ensures
        moved(t, ms).header.handle_seed == t.header.handle_seed + ms.len(),
    decreases ms.len(),
{
    if ms.len() > 0 {
        lemma_moved_seed(t, ms.drop_last());
    }
}

/// The drawing after `rehandle_colliding_default_entries` with the
/// defaults `defaults`: each colliding default entry moved to a fresh
/// handle with the references that followed it, then the stale dimension
/// style text styles rewired.
pub open spec fn rehandled(doc: CadDocument, defaults: Map<(TableKind, Seq<char>), u64>) -> TablesView {
    let t = moved(tables_of(doc), moves_of(doc, defaults));
    TablesView { dim_styles: rewired_styles(t.dim_styles, t.text_styles), ..t }
}

/// Move the default entries that survived reading a file, and whose
/// handles the file reused for its own records, to fresh handles; the
/// header references to an old handle follow, as do the dimension styles'
/// text-style references. Then the stale dimension-style text styles are
/// rewired. With no recorded defaults nothing changes.
pub fn rehandle_colliding_default_entries(document: &mut CadDocument, defaults: &DefaultEntryHandles)
    requires
        old(document).header.handle_seed + table_entry_count(*old(document)) < u64::MAX,
    ensures
        defaults@ == Map::<(TableKind, Seq<char>), u64>::empty() ==> *final(document) == *old(document),
        defaults@ != Map::<(TableKind, Seq<char>), u64>::empty() ==> {
            &&& tables_of(*final(document)) == rehandled(*old(document), defaults@)
            &&& same_rest(*final(document), *old(document))
        },
{
    if defaults.is_empty() {
        return;
    }
    let usage = count_usage(document);
    let moves = colliding_entries(document, defaults, &usage);
    let ghost doc0 = *document;
    let ghost mv = moves_view(moves@);
    proof {
        lemma_moves_len(doc0, defaults@);
    }
    let mut k: usize = 0;
    while k < moves.len()
        invariant
            k <= moves@.len(),
            mv == moves_view(moves@),
            mv.len() <= table_entry_count(doc0),
            doc0.header.handle_seed + table_entry_count(doc0) < u64::MAX,
            document.header.handle_seed == doc0.header.handle_seed + k,
            tables_of(*document) == moved(tables_of(doc0), mv.take(k as int)),
            same_rest(*document, doc0),
        decreases moves@.len() - k,
    {
        let kind = moves[k].0;
        let name = moves[k].1.as_str();
        let stale = moves[k].2;
        proof {
            assert(mv.take(k + 1).drop_last() =~= mv.take(k as int));
            assert(mv.take(k + 1).last() == (kind, name@, stale));
        }
        apply_one_move(document, kind, name, stale);
        k = k + 1;
    }
    assert(mv.take(mv.len() as int) =~= mv);
    rewire_stale_dimstyle_text_styles(document);
}

} // verus!

verus! {

proof fn lemma_occ_concat(a: Seq<u64>, b: Seq<u64>, y: u64)
    ensures
        occurrences(a + b, y) == occurrences(a, y) + occurrences(b, y),
    decreases b.len(),
{
    if b.len() == 0 {
        assert(a + b =~= a);
    } else {
        assert((a + b).drop_last() =~= a + b.drop_last());
        lemma_occ_concat(a, b.drop_last(), y);
    }
}

proof fn lemma_occ_update(s: Seq<u64>, i: int, v: u64, y: u64)
    requires
        0 <= i < s.len(),
    ensures
        occurrences(s.update(i, v), y) <= occurrences(s, y) + if v == y {
            1nat
        } else {
            0nat
        },
    decreases s.len(),
{
    if i == s.len() - 1 {
        assert(s.update(i, v).drop_last() =~= s.drop_last());
    } else {
        assert(s.update(i, v).drop_last() =~= s.drop_last().update(i, v));
        lemma_occ_update(s.drop_last(), i, v, y);
    }
}

proof fn lemma_occ_below(s: Seq<u64>, b: u64, y: u64)
    requires
        forall|i: int| 0 <= i < s.len() ==> s[i] < b,
        y >= b,
    ensures
        occurrences(s, y) == 0,
    decreases s.len(),
{
    if s.len() > 0 {
        lemma_occ_below(s.drop_last(), b, y);
    }
}

proof fn lemma_named_handle_count<T: TableEntry>(es: Seq<T>, name: Seq<char>, h: Handle, y: u64)
    ensures
        occurrences(key_handles(entry_keys(with_named_handle(es, name, h))), y) <= occurrences(
            key_handles(entry_keys(es)),
            y,
        ) + if h.0 == y {
            1nat
        } else {
            0nat
        },
{
    let i = first_index(es, named::<T>(name));
    lemma_first_index_facts(es, named::<T>(name));
    if i >= 0 {
        es[i].lemma_with_handle(h);
        assert(key_handles(entry_keys(es.update(i, es[i].with_handle(h)))) =~= key_handles(
            entry_keys(es),
        ).update(i, h.0));
        lemma_occ_update(key_handles(entry_keys(es)), i, h.0, y);
    }
}

proof fn lemma_placeholders_same(a: Seq<BlockRecord>, b: Seq<BlockRecord>)
    requires
        a.len() == b.len(),
        forall|i: int|
            0 <= i < a.len() ==> (#[trigger] a[i]).block_entity_handle == b[i].block_entity_handle
                && a[i].block_end_handle == b[i].block_end_handle,
    ensures
        placeholder_handles(a) == placeholder_handles(b),
    decreases a.len(),
{
    if a.len() > 0 {
        lemma_placeholders_same(a.drop_last(), b.drop_last());
    }
}

proof fn lemma_named_handle_placeholders(brs: Seq<BlockRecord>, name: Seq<char>, h: Handle)
    ensures
        placeholder_handles(with_named_handle(brs, name, h)) == placeholder_handles(brs),
{
    lemma_first_index_facts(brs, named::<BlockRecord>(name));
    let w = with_named_handle(brs, name, h);
    assert forall|i: int| 0 <= i < w.len() implies (#[trigger] w[i]).block_entity_handle
        == brs[i].block_entity_handle && w[i].block_end_handle == brs[i].block_end_handle by {}
    lemma_placeholders_same(w, brs);
}

/// How often `y` occurs among the handles written with tables `t`, part by
/// part.
spec fn parts_count(t: TablesView, doc: CadDocument, y: u64) -> nat {
    occurrences(key_handles(entry_keys(t.layers)), y) + occurrences(key_handles(entry_keys(t.line_types)), y)
        + occurrences(key_handles(entry_keys(t.text_styles)), y) + occurrences(
        key_handles(entry_keys(t.dim_styles)),
        y,
    ) + occurrences(key_handles(entry_keys(t.app_ids)), y) + occurrences(
        key_handles(entry_keys(t.views)),
        y,
    ) + occurrences(key_handles(entry_keys(t.vports)), y) + occurrences(
        key_handles(entry_keys(t.ucss)),
        y,
    ) + occurrences(key_handles(entry_keys(t.vx_table)), y) + occurrences(
        key_handles(entry_keys(t.block_records)),
        y,
    ) + occurrences(placeholder_handles(t.block_records), y) + occurrences(
        doc.entities@.map_values(|e: EntityRecord| e.handle.0),
        y,
    ) + occurrences(doc.objects@.map_values(|o: (Handle, ObjectType)| o.0.0), y)
}

proof fn lemma_written_count(t: TablesView, doc: CadDocument, y: u64)
    ensures
        occurrences(written_in(t, doc), y) == parts_count(t, doc, y),
{
    let p1 = key_handles(entry_keys(t.layers));
    let p2 = key_handles(entry_keys(t.line_types));
    let p3 = key_handles(entry_keys(t.text_styles));
    let p4 = key_handles(entry_keys(t.dim_styles));
    let p5 = key_handles(entry_keys(t.app_ids));
    let p6 = key_handles(entry_keys(t.views));
    let p7 = key_handles(entry_keys(t.vports));
    let p8 = key_handles(entry_keys(t.ucss));
    let p9 = key_handles(entry_keys(t.vx_table));
    let p10 = key_handles(entry_keys(t.block_records));
    let p11 = placeholder_handles(t.block_records);
    let p12 = doc.entities@.map_values(|e: EntityRecord| e.handle.0);
    let p13 = doc.objects@.map_values(|o: (Handle, ObjectType)| o.0.0);
    lemma_occ_concat(p1, p2, y);
    lemma_occ_concat(p1 + p2, p3, y);
    lemma_occ_concat(p1 + p2 + p3, p4, y);
    lemma_occ_concat(p1 + p2 + p3 + p4, p5, y);
    lemma_occ_concat(p1 + p2 + p3 + p4 + p5, p6, y);
    lemma_occ_concat(p1 + p2 + p3 + p4 + p5 + p6, p7, y);
    lemma_occ_concat(p1 + p2 + p3 + p4 + p5 + p6 + p7, p8, y);
    lemma_occ_concat(p1 + p2 + p3 + p4 + p5 + p6 + p7 + p8, p9, y);
    lemma_occ_concat(p1 + p2 + p3 + p4 + p5 + p6 + p7 + p8 + p9, p10, y);
    lemma_occ_concat(p1 + p2 + p3 + p4 + p5 + p6 + p7 + p8 + p9 + p10, p11, y);
    lemma_occ_concat(p1 + p2 + p3 + p4 + p5 + p6 + p7 + p8 + p9 + p10 + p11, p12, y);
    lemma_occ_concat(p1 + p2 + p3 + p4 + p5 + p6 + p7 + p8 + p9 + p10 + p11 + p12, p13, y);
}

proof fn lemma_follow_keys(ds: Seq<DimStyle>, stale: u64, new: Handle)
    ensures
        entry_keys(follow_text_styles(ds, stale, new)) == entry_keys(ds),
{
    assert(entry_keys(follow_text_styles(ds, stale, new)) =~= entry_keys(ds));
}

/// One move adds at most the handle it hands out.
proof fn lemma_apply_move_count(t: TablesView, doc: CadDocument, m: (TableKind, Seq<char>, u64), y: u64)
    ensures
        occurrences(written_in(apply_move(t, m), doc), y) <= occurrences(written_in(t, doc), y)
            + if t.header.handle_seed == y {
            1nat
        } else {
            0nat
        },
{
    let new = Handle(t.header.handle_seed);
    let t1 = TablesView {
        header: Header { handle_seed: (t.header.handle_seed + 1) as u64, ..t.header },
        ..t
    };
    let t2 = with_entry_handle(t1, m.0, m.1, new);
    let t3 = TablesView { header: follow_header(t2.header, m.2, new), ..t2 };
    let t4 = apply_move(t, m);
    lemma_follow_keys(t3.dim_styles, m.2, new);
    lemma_written_count(t, doc, y);
    lemma_written_count(t4, doc, y);
    match m.0 {
        TableKind::Layers => lemma_named_handle_count(t.layers, m.1, new, y),
        TableKind::LineTypes => lemma_named_handle_count(t.line_types, m.1, new, y),
        TableKind::TextStyles => lemma_named_handle_count(t.text_styles, m.1, new, y),
        TableKind::DimStyles => lemma_named_handle_count(t.dim_styles, m.1, new, y),
        TableKind::AppIds => lemma_named_handle_count(t.app_ids, m.1, new, y),
        TableKind::Views => lemma_named_handle_count(t.views, m.1, new, y),
        TableKind::VPorts => lemma_named_handle_count(t.vports, m.1, new, y),
        TableKind::Ucss => lemma_named_handle_count(t.ucss, m.1, new, y),
        TableKind::VxTable => lemma_named_handle_count(t.vx_table, m.1, new, y),
        TableKind::BlockRecords => {
            lemma_named_handle_count(t.block_records, m.1, new, y);
            lemma_named_handle_placeholders(t.block_records, m.1, new);
        },
    }
}

proof fn lemma_moved_fresh(t0: TablesView, doc: CadDocument, ms: Seq<(TableKind, Seq<char>, u64)>)
    requires
        forall|y: u64| y >= t0.header.handle_seed ==> #[trigger] occurrences(written_in(t0, doc), y) == 0,
        t0.header.handle_seed + ms.len() <= u64::MAX,
    ensures
        moved(t0, ms).header.handle_seed == t0.header.handle_seed + ms.len(),
        forall|y: u64|
            y >= moved(t0, ms).header.handle_seed ==> #[trigger] occurrences(
                written_in(moved(t0, ms), doc),
                y,
            ) == 0,
        forall|j: int|
            0 <= j < ms.len() ==> #[trigger] occurrences(
                written_in(moved(t0, ms), doc),
                (t0.header.handle_seed + j) as u64,
            ) <= 1,
    decreases ms.len(),
{
    lemma_moved_seed(t0, ms);
    if ms.len() > 0 {
        let prev = moved(t0, ms.drop_last());
        lemma_moved_fresh(t0, doc, ms.drop_last());
        let t = moved(t0, ms);
        assert(t == apply_move(prev, ms.last()));
        assert forall|y: u64| y >= t.header.handle_seed implies #[trigger] occurrences(
            written_in(t, doc),
            y,
        ) == 0 by {
            lemma_apply_move_count(prev, doc, ms.last(), y);
        }
        assert forall|j: int| 0 <= j < ms.len() implies #[trigger] occurrences(
            written_in(t, doc),
            (t0.header.handle_seed + j) as u64,
        ) <= 1 by {
            let y = (t0.header.handle_seed + j) as u64;
            lemma_apply_move_count(prev, doc, ms.last(), y);
            if j < ms.len() - 1 {
                assert(occurrences(written_in(prev, doc), (t0.header.handle_seed + j) as u64) <= 1);
            }
        }
    }
}

proof fn lemma_rewire_keys(ds: Seq<DimStyle>, ts: Seq<NamedEntry>, names: Seq<Seq<char>>)
    ensures
        entry_keys(rewire_all(ds, ts, names)) == entry_keys(ds),
    decreases names.len(),
{
    if names.len() > 0 {
        lemma_rewire_keys(ds, ts, names.drop_last());
        let prev = rewire_all(ds, ts, names.drop_last());
        let n = names.last();
        lemma_first_index_facts(prev, named::<DimStyle>(n));
        assert(entry_keys(rewire_name(prev, ts, n)) =~= entry_keys(prev));
    }
}

/// When every handle held by a record of the drawing is below the handle
/// seed, rehandling keeps every such handle below the new seed, and each
/// handle it hands out is held by at most one record.
pub proof fn lemma_rehandled_handles_unique(doc: CadDocument, defaults: Map<(TableKind, Seq<char>), u64>)
    requires
        forall|i: int|
            0 <= i < written_handles(doc).len() ==> #[trigger] written_handles(doc)[i]
                < doc.header.handle_seed,
        doc.header.handle_seed + table_entry_count(doc) < u64::MAX,
    ensures
        ({
            let after = rehandled(doc, defaults);
            &&& after.header.handle_seed == doc.header.handle_seed + moves_of(doc, defaults).len()
            &&& forall|y: u64|
                y >= after.header.handle_seed ==> #[trigger] occurrences(written_in(after, doc), y) == 0
            &&& forall|j: int|
                0 <= j < moves_of(doc, defaults).len() ==> #[trigger] occurrences(
                    written_in(after, doc),
                    (doc.header.handle_seed + j) as u64,
                ) <= 1
        }),
{
    let t0 = tables_of(doc);
    let ms = moves_of(doc, defaults);
    lemma_moves_len(doc, defaults);
    assert forall|y: u64| y >= t0.header.handle_seed implies #[trigger] occurrences(
        written_in(t0, doc),
        y,
    ) == 0 by {
        lemma_occ_below(written_in(t0, doc), t0.header.handle_seed, y);
    }
    lemma_moved_fresh(t0, doc, ms);
    let t = moved(t0, ms);
    lemma_rewire_keys(t.dim_styles, t.text_styles, stale_names(t.dim_styles, t.text_styles));
    let after = rehandled(doc, defaults);
    assert(written_in(after, doc) =~= written_in(t, doc));
}

} // verus!

verus! {

/// No two entries share a name, ASCII case ignored.
pub open spec fn unique_names<T: TableEntry>(es: Seq<T>) -> bool {
    forall|i: int, j: int|
        0 <= i < j < es.len() ==> !eq_ignore_case(
            (#[trigger] es[i]).entry_name(),
            (#[trigger] es[j]).entry_name(),
        )
}

/// The dimension style `d` after rewiring: when its text style is set but
/// none of `ts`, it refers to the text style of its own name if there is
/// one.
pub open spec fn rewired_one(d: DimStyle, ts: Seq<NamedEntry>) -> DimStyle {
    if d.dimtxsty_handle.0 != 0 && !resolves(ts, d.dimtxsty_handle) {
        match first_match(ts, named::<NamedEntry>(d.name@)) {
            Some(t) => DimStyle { dimtxsty_handle: t.handle, ..d },
            None => d,
        }
    } else {
        d
    }
}

proof fn lemma_rewire_prefix(ds: Seq<DimStyle>, ts: Seq<NamedEntry>, k: int)
    requires
        unique_names(ds),
        0 <= k <= ds.len(),
    ensures
        rewire_all(ds, ts, stale_names(ds.take(k), ts)) == ds.take(k).map_values(
            |d: DimStyle| rewired_one(d, ts),
        ) + ds.skip(k),
    decreases k,
{
    if k == 0 {
        assert(ds.take(0) =~= Seq::<DimStyle>::empty());
        assert(ds.take(0).map_values(|d: DimStyle| rewired_one(d, ts)) + ds.skip(0) =~= ds);
    } else {
        lemma_rewire_prefix(ds, ts, k - 1);
        let prev = rewire_all(ds, ts, stale_names(ds.take(k - 1), ts));
        let d = ds[k - 1];
        assert(ds.take(k).drop_last() =~= ds.take(k - 1));
        assert(ds.take(k).last() == d);
        let goal = ds.take(k).map_values(|e: DimStyle| rewired_one(e, ts)) + ds.skip(k);
        if d.dimtxsty_handle.0 != 0 && !resolves(ts, d.dimtxsty_handle) {
            let names = stale_names(ds.take(k), ts);
            assert(names.drop_last() =~= stale_names(ds.take(k - 1), ts));
            assert(rewire_all(ds, ts, names) == rewire_name(prev, ts, d.name@));
            assert forall|j: int| 0 <= j < k - 1 implies !(#[trigger] named::<DimStyle>(d.name@)(
                prev[j],
            )) by {
                assert(prev[j].name == ds[j].name);
                assert(!eq_ignore_case(ds[j].entry_name(), ds[k - 1].entry_name()));
            }
            crate::text::lemma_eq_ignore_case_equiv(d.name@, d.name@, d.name@);
            assert(prev[k - 1] == d);
            lemma_first_index_is(prev, named::<DimStyle>(d.name@), k - 1);
            match first_match(ts, named::<NamedEntry>(d.name@)) {
                Some(t) => {
                    assert(rewire_name(prev, ts, d.name@) =~= goal);
                },
                None => {
                    assert(rewire_name(prev, ts, d.name@) =~= goal);
                },
            }
        } else {
            assert(stale_names(ds.take(k), ts) =~= stale_names(ds.take(k - 1), ts));
            assert(prev =~= goal);
        }
    }
}

/// With dimension-style names unique (ASCII case ignored), rewiring
/// changes each dimension style on its own: one whose text style is set
/// but is none of the text styles then refers to the text style of its
/// own name, when there is one. So afterwards every dimension style's text
/// style is unset, is one of the text styles, or has no text style of the
/// style's name to go to.
pub proof fn lemma_rewired_styles(ds: Seq<DimStyle>, ts: Seq<NamedEntry>)
    requires
        unique_names(ds),
    ensures
        rewired_styles(ds, ts) == ds.map_values(|d: DimStyle| rewired_one(d, ts)),
        forall|i: int|
            0 <= i < ds.len() ==> {
                let r = #[trigger] rewired_styles(ds, ts)[i];
                ||| r.dimtxsty_handle.0 == 0
                ||| resolves(ts, r.dimtxsty_handle)
                ||| first_match(ts, named::<NamedEntry>(r.name@)) is None
            },
{
    lemma_rewire_prefix(ds, ts, ds.len() as int);
    assert(ds.take(ds.len() as int) =~= ds);
    assert(ds.take(ds.len() as int).map_values(|d: DimStyle| rewired_one(d, ts)) + ds.skip(
        ds.len() as int,
    ) =~= ds.map_values(|d: DimStyle| rewired_one(d, ts)));
    assert forall|i: int| 0 <= i < ds.len() implies {
        let r = #[trigger] rewired_styles(ds, ts)[i];
        ||| r.dimtxsty_handle.0 == 0
        ||| resolves(ts, r.dimtxsty_handle)
        ||| first_match(ts, named::<NamedEntry>(r.name@)) is None
    } by {
        let d = ds[i];
        match first_match(ts, named::<NamedEntry>(d.name@)) {
            Some(t) => {
                lemma_first_index_facts(ts, named::<NamedEntry>(d.name@));
                let k = first_index(ts, named::<NamedEntry>(d.name@));
                assert(ts[k].handle.0 == t.handle.0);
            },
            None => {},
        }
    }
}

} // verus!
