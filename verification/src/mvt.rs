//! Mapbox Vector Tile layers: the tile, layer, feature and value records,
//! the geometry command encoding, and a builder that shares attribute keys
//! and values among a layer's features.
use vstd::prelude::*;

use crate::seqs::{first_index, is_first, lemma_first_index_facts, lemma_first_index_is};
use crate::text::{owned, same_text};

verus! {

/// The geometry type of a feature.
#[derive(Clone, Copy, Debug, PartialEq, Eq, Structural)]
pub enum GeomType {
    Unknown,
    Point,
    LineString,
    Polygon,
}

/// The number a geometry type is written as.
pub open spec fn geom_code(t: GeomType) -> i32 {
    match t {
        GeomType::Unknown => 0,
        GeomType::Point => 1,
        GeomType::LineString => 2,
        GeomType::Polygon => 3,
    }
}

impl GeomType {
    /// The number this geometry type is written as.
    pub fn code(self) -> (r: i32)
        ensures
            r == geom_code(self),
    {
        match self {
            GeomType::Unknown => 0,
            GeomType::Point => 1,
            GeomType::LineString => 2,
            GeomType::Polygon => 3,
        }
    }
}

/// A feature attribute value. Floating-point values are carried as their
/// IEEE-754 bit patterns.
#[derive(Clone, Debug, PartialEq, Default)]
pub struct TileValue {
    pub string_value: Option<String>,
    pub float_value: Option<u32>,
    pub double_value: Option<u64>,
    pub int_value: Option<i64>,
    pub uint_value: Option<u64>,
    pub sint_value: Option<i64>,
    pub bool_value: Option<bool>,
}

/// The content of a [`TileValue`].
pub struct TileValueView {
    pub string_value: Option<Seq<char>>,
    pub float_value: Option<u32>,
    pub double_value: Option<u64>,
    pub int_value: Option<i64>,
    pub uint_value: Option<u64>,
    pub sint_value: Option<i64>,
    pub bool_value: Option<bool>,
}

impl View for TileValue {
    type V = TileValueView;

    open spec fn view(&self) -> TileValueView {
        TileValueView {
            string_value: match self.string_value {
                Some(s) => Some(s@),
                None => None,
            },
            float_value: self.float_value,
            double_value: self.double_value,
            int_value: self.int_value,
            uint_value: self.uint_value,
            sint_value: self.sint_value,
            bool_value: self.bool_value,
        }
    }
}

/// The value that holds the text `s` and nothing else.
pub open spec fn text_value(s: Seq<char>) -> TileValueView {
    TileValueView {
        string_value: Some(s),
        float_value: None,
        double_value: None,
        int_value: None,
        uint_value: None,
        sint_value: None,
        bool_value: None,
    }
}

impl TileValue {
    /// A value holding the text `s`.
    pub fn from_text(s: &str) -> (r: Self)
        ensures
            r@ == text_value(s@),
    {
        TileValue {
            string_value: Some(owned(s)),
            float_value: None,
            double_value: None,
            int_value: None,
            uint_value: None,
            sint_value: None,
            bool_value: None,
        }
    }

    /// The two values hold the same content.
    pub fn same_as(&self, other: &TileValue) -> (r: bool)
        ensures
            r == (self@ == other@),
    {
        let texts_equal = match (&self.string_value, &other.string_value) {
            (Some(a), Some(b)) => same_text(a.as_str(), b.as_str()),
            (None, None) => true,
            _ => false,
        };
        texts_equal && self.float_value == other.float_value && self.double_value
            == other.double_value && self.int_value == other.int_value && self.uint_value
            == other.uint_value && self.sint_value == other.sint_value && self.bool_value
            == other.bool_value
    }
}

/// One feature of a layer.
#[derive(Clone, Debug, PartialEq)]
pub struct TileFeature {
    pub id: Option<u64>,
    /// Pairs of indices into the layer's key and value tables.
    pub tags: Vec<u32>,
    /// The geometry type's number.
    pub geom_type: Option<i32>,
    /// The geometry as command and parameter integers.
    pub geometry: Vec<u32>,
}

/// A layer of a tile: its features and the key and value tables that their
/// tags index.
#[derive(Clone, Debug, PartialEq)]
pub struct TileLayer {
    pub name: String,
    pub features: Vec<TileFeature>,
    pub keys: Vec<String>,
    pub values: Vec<TileValue>,
    pub extent: Option<u32>,
    pub version: u32,
}

/// A tile: its layers.
#[derive(Clone, Debug, PartialEq)]
pub struct Tile {
    pub layers: Vec<TileLayer>,
}

// Geometry commands.
/// A command integer: the command in the low three bits, the repeat count
/// above them.
pub open spec fn command(id: u32, count: u32) -> u32 {
    (id & 0x7) | (count << 3)
}

/// A parameter in zig-zag form: 0, -1, 1, -2, 2, ... become 0, 1, 2, 3,
/// 4, ...
pub open spec fn zigzag(v: i32) -> u32 {
    (if v >= 0 {
        2 * v
    } else {
        -2 * v - 1
    }) as u32
}

/// The parameter a zig-zag integer stands for.
pub open spec fn unzigzag(z: u32) -> int {
    if z % 2 == 0 {
        (z / 2) as int
    } else {
        -((z as int + 1) / 2)
    }
}

/// The command integer for command `id` repeated `count` times.
pub fn command_integer(id: u32, count: u32) -> (r: u32)
    ensures
        r == command(id, count),
{
    (id & 0x7) | (count << 3)
}

/// A parameter integer in zig-zag form.
pub fn parameter_integer(value: i32) -> (r: i32)
    ensures
        r as u32 == zigzag(value),
{
    let r = (value << 1) ^ (value >> 31);
    assert((((value << 1) ^ (value >> 31)) as u32) == (if value >= 0 {
        2 * value
    } else {
        -2 * value - 1
    }) as u32) by (bit_vector);
    r
}

/// The zig-zag form of every 32-bit integer decodes back to it.
pub proof fn lemma_zigzag_decodes(v: i32)
    ensures
        unzigzag(zigzag(v)) == v,
{
}

/// A command integer gives back its command and, below 2^29, its count.
pub proof fn lemma_command_decodes(id: u32, count: u32)
    requires
        id < 8,
        count < 0x2000_0000,
    ensures
        command(id, count) & 0x7 == id,
        command(id, count) >> 3 == count,
{
    assert(((id & 0x7) | (count << 3)) & 0x7 == id && ((id & 0x7) | (count << 3)) >> 3 == count)
        by (bit_vector)
        requires
            id < 8,
            count < 0x2000_0000,
    ;
}

/// The geometry of a point.
pub open spec fn point_geometry(x: i32, y: i32) -> Seq<u32> {
    seq![command(1, 1), zigzag(x), zigzag(y)]
}

/// Consecutive points of `cs[from..to]` are close enough for their
/// coordinate differences to fit in 32 bits.
pub open spec fn steps_fit(cs: Seq<(i32, i32)>, from: int, to: int) -> bool {
    forall|k: int|
        from < k < to ==> i32::MIN <= #[trigger] cs[k].0 - cs[k - 1].0 <= i32::MAX && i32::MIN
            <= cs[k].1 - cs[k - 1].1 <= i32::MAX
}

/// The steps from each point of `cs[from..to]` to the next, as zig-zag
/// parameter pairs.
pub open spec fn step_params(cs: Seq<(i32, i32)>, from: int, to: int) -> Seq<u32>
    decreases to - from,
{
    if to <= from + 1 {
        seq![]
    } else {
        step_params(cs, from, to - 1) + seq![
            zigzag((cs[to - 1].0 - cs[to - 2].0) as i32),
            zigzag((cs[to - 1].1 - cs[to - 2].1) as i32),
        ]
    }
}

/// The geometry of the path through `cs[0..end]`: a move to the first point
/// and lines to the others.
pub open spec fn path_geometry(cs: Seq<(i32, i32)>, end: int) -> Seq<u32> {
    seq![command(1, 1), zigzag(cs[0].0), zigzag(cs[0].1), command(2, (end - 1) as u32)]
        + step_params(cs, 0, end)
}

/// Where a polygon ring's path ends: before its closing point, if it
/// repeats the first one.
pub open spec fn ring_end(ring: Seq<(i32, i32)>) -> int {
    if ring.last() == ring[0] {
        ring.len() - 1
    } else {
        ring.len() as int
    }
}

/// The geometry of polygon rings: each ring of four or more points as a
/// path and a close; shorter rings are skipped.
pub open spec fn rings_geometry(rings: Seq<Seq<(i32, i32)>>) -> Seq<u32>
    decreases rings.len(),
{
    if rings.len() == 0 {
        seq![]
    } else {
        let r = rings.last();
        rings_geometry(rings.drop_last()) + if r.len() >= 4 {
            path_geometry(r, ring_end(r)) + seq![command(7, 1)]
        } else {
            seq![]
        }
    }
}

/// The elements equal to `a`.
pub open spec fn equals<A>(a: A) -> spec_fn(A) -> bool {
    |x: A| x == a
}

/// Where `a` is in `s` (its first position), or where it was appended.
pub open spec fn interned<A>(s: Seq<A>, a: A) -> (Seq<A>, int) {
    let i = first_index(s, equals(a));
    if i >= 0 {
        (s, i)
    } else {
        (s.push(a), s.len() as int)
    }
}

/// The key table, value table and tags after tagging a feature with
/// `props`: each key and text value is looked up in its table, or appended.
pub open spec fn tagged(
    keys: Seq<Seq<char>>,
    values: Seq<TileValueView>,
    props: Seq<(Seq<char>, Seq<char>)>,
) -> (Seq<Seq<char>>, Seq<TileValueView>, Seq<u32>)
    decreases props.len(),
{
    if props.len() == 0 {
        (keys, values, seq![])
    } else {
        let (k1, v1, t1) = tagged(keys, values, props.drop_last());
        let (k2, ki) = interned(k1, props.last().0);
        let (v2, vi) = interned(v1, text_value(props.last().1));
        (k2, v2, t1 + seq![ki as u32, vi as u32])
    }
}

/// The texts of the properties.
pub open spec fn props_view(props: Seq<(String, String)>) -> Seq<(Seq<char>, Seq<char>)> {
    props.map_values(|p: (String, String)| (p.0@, p.1@))
}

/// No element occurs twice.
pub open spec fn distinct<A>(s: Seq<A>) -> bool {
    forall|i: int, j: int| 0 <= i < j < s.len() ==> s[i] != s[j]
}

/// The content of a feature.
pub struct FeatureView {
    pub id: Option<u64>,
    pub tags: Seq<u32>,
    pub geom_type: Option<i32>,
    pub geometry: Seq<u32>,
}

pub open spec fn feature_view(f: TileFeature) -> FeatureView {
    FeatureView { id: f.id, tags: f.tags@, geom_type: f.geom_type, geometry: f.geometry@ }
}

/// Builds one layer, sharing attribute keys and values among its features.
pub struct LayerBuilder {
    pub name: String,
    pub extent: u32,
    keys: Vec<String>,
    values: Vec<TileValue>,
    features: Vec<TileFeature>,
    next_id: u64,
}

impl LayerBuilder {
    /// The key table.
    pub closed spec fn key_table(&self) -> Seq<Seq<char>> {
        self.keys@.map_values(|k: String| k@)
    }

    /// The value table.
    pub closed spec fn value_table(&self) -> Seq<TileValueView> {
        self.values@.map_values(|v: TileValue| v@)
    }

    /// The features added so far.
    pub closed spec fn feature_list(&self) -> Seq<FeatureView> {
        self.features@.map_values(|f: TileFeature| feature_view(f))
    }

    /// The id the next feature gets.
    pub closed spec fn next_feature_id(&self) -> u64 {
        self.next_id
    }

    /// The layer's name.
    pub closed spec fn name_text(&self) -> Seq<char> {
        self.name@
    }

    /// The layer's extent.
    pub closed spec fn extent_value(&self) -> u32 {
        self.extent
    }

    /// Both tables hold each entry once.
    pub open spec fn wf(&self) -> bool {
        &&& distinct(self.key_table())
        &&& distinct(self.value_table())
    }

    pub fn new(name: String, extent: u32) -> (r: Self)
        ensures
            r.wf(),
            r.name_text() == name@,
            r.extent_value() == extent,
            r.key_table().len() == 0,
            r.value_table().len() == 0,
            r.feature_list().len() == 0,
            r.next_feature_id() == 1,
    {
        let r = LayerBuilder {
            name,
            extent,
            keys: Vec::new(),
            values: Vec::new(),
            features: Vec::new(),
            next_id: 1,
        };
        assert(r.key_table() =~= Seq::<Seq<char>>::empty());
        assert(r.value_table() =~= Seq::<TileValueView>::empty());
        assert(r.feature_list() =~= Seq::<FeatureView>::empty());
        r
    }

    /// The index of `key` in the key table, appending it when it is new.
    fn get_key(&mut self, key: &str) -> (r: u32)
        requires
            old(self).wf(),
        ensures
            final(self).wf(),
            (final(self).key_table(), r as int) == ({
                let (t, i) = interned(old(self).key_table(), key@);
                (t, i as u32 as int)
            }),
            final(self).value_table() == old(self).value_table(),
            final(self).feature_list() == old(self).feature_list(),
            final(self).next_feature_id() == old(self).next_feature_id(),
            final(self).name_text() == old(self).name_text(),
            final(self).extent_value() == old(self).extent_value(),
    {
        let ghost p = equals(key@);
        let mut i: usize = 0;
        while i < self.keys.len()
            invariant
                i <= self.keys@.len(),
                *self == *old(self),
                self.wf(),
                p == equals(key@),
                forall|j: int| 0 <= j < i ==> !p(#[trigger] self.key_table()[j]),
            decreases self.keys@.len() - i,
        {
            assert(self.key_table()[i as int] == self.keys@[i as int]@);
            if same_text(self.keys[i].as_str(), key) {
                proof {
                    lemma_first_index_is(self.key_table(), p, i as int);
                }
                return i as u32;
            }
            i = i + 1;
        }
        proof {
            lemma_first_index_facts(self.key_table(), p);
            if first_index(self.key_table(), p) >= 0 {
                let k = first_index(self.key_table(), p);
                assert(p(self.key_table()[k]));
            }
        }
        let idx = self.keys.len() as u32;
        let ghost before = self.key_table();
        self.keys.push(owned(key));
        assert(self.key_table() =~= before.push(key@));
        idx
    }

    /// The index of `val` in the value table, appending it when it is new.
    fn get_value(&mut self, val: &TileValue) -> (r: u32)
        requires
            old(self).wf(),
        ensures
            final(self).wf(),
            (final(self).value_table(), r as int) == ({
                let (t, i) = interned(old(self).value_table(), val@);
                (t, i as u32 as int)
            }),
            final(self).key_table() == old(self).key_table(),
            final(self).feature_list() == old(self).feature_list(),
            final(self).next_feature_id() == old(self).next_feature_id(),
            final(self).name_text() == old(self).name_text(),
            final(self).extent_value() == old(self).extent_value(),
    {
        let ghost p = equals(val@);
        let mut i: usize = 0;
        while i < self.values.len()
            invariant
                i <= self.values@.len(),
                *self == *old(self),
                self.wf(),
                p == equals(val@),
                forall|j: int| 0 <= j < i ==> !p(#[trigger] self.value_table()[j]),
            decreases self.values@.len() - i,
        {
            assert(self.value_table()[i as int] == self.values@[i as int]@);
            if self.values[i].same_as(val) {
                proof {
                    lemma_first_index_is(self.value_table(), p, i as int);
                }
                return i as u32;
            }
            i = i + 1;
        }
        proof {
            lemma_first_index_facts(self.value_table(), p);
            if first_index(self.value_table(), p) >= 0 {
                let k = first_index(self.value_table(), p);
                assert(p(self.value_table()[k]));
            }
        }
        let idx = self.values.len() as u32;
        let ghost before = self.value_table();
        self.values.push(val.clone_value());
        assert(self.value_table() =~= before.push(val@));
        idx
    }
}

impl TileValue {
    /// A value with the same content.
    pub fn clone_value(&self) -> (r: Self)
        ensures
            r@ == self@,
    {
        TileValue {
            string_value: match &self.string_value {
                Some(s) => Some(owned(s.as_str())),
                None => None,
            },
            float_value: self.float_value,
            double_value: self.double_value,
            int_value: self.int_value,
            uint_value: self.uint_value,
            sint_value: self.sint_value,
            bool_value: self.bool_value,
        }
    }
}

/// `after` is `before` with one more feature: tagged with `props`, of
/// geometry type `code` and with geometry `geometry`, under the next id.
pub open spec fn adds_feature(
    before: LayerBuilder,
    after: LayerBuilder,
    props: Seq<(Seq<char>, Seq<char>)>,
    code: i32,
    geometry: Seq<u32>,
) -> bool {
    let (kt, vt, tags) = tagged(before.key_table(), before.value_table(), props);
    &&& after.key_table() == kt
    &&& after.value_table() == vt
    &&& after.feature_list() == before.feature_list().push(
        FeatureView { id: Some(before.next_feature_id()), tags, geom_type: Some(code), geometry },
    )
    &&& after.next_feature_id() == before.next_feature_id() + 1
    &&& after.name_text() == before.name_text()
    &&& after.extent_value() == before.extent_value()
}

/// The point sequences of polygon rings.
pub open spec fn rings_view(rings: Seq<Vec<(i32, i32)>>) -> Seq<Seq<(i32, i32)>> {
    rings.map_values(|r: Vec<(i32, i32)>| r@)
}

/// Every ring that is written has steps that fit in 32 bits.
pub open spec fn rings_fit(rings: Seq<Seq<(i32, i32)>>) -> bool {
    forall|i: int|
        0 <= i < rings.len() && rings[i].len() >= 4 ==> steps_fit(
            #[trigger] rings[i],
            0,
            ring_end(rings[i]),
        )
}

/// Append the path through `cs[0..end]`.
fn write_path(geom: &mut Vec<u32>, cs: &[(i32, i32)], end: usize)
    requires
        2 <= end <= cs@.len(),
        steps_fit(cs@, 0, end as int),
    ensures
        final(geom)@ == old(geom)@ + path_geometry(cs@, end as int),
{
    let ghost start = geom@;
    geom.push(command_integer(1, 1));
    geom.push(parameter_integer(cs[0].0) as u32);
    geom.push(parameter_integer(cs[0].1) as u32);
    geom.push(command_integer(2, (end - 1) as u32));
    let ghost head = seq![
        command(1, 1),
        zigzag(cs@[0].0),
        zigzag(cs@[0].1),
        command(2, (end - 1) as u32),
    ];
    assert(geom@ =~= start + head + step_params(cs@, 0, 1));
    let mut k: usize = 1;
    while k < end
        invariant
            1 <= k <= end <= cs@.len(),
            steps_fit(cs@, 0, end as int),
            geom@ == start + head + step_params(cs@, 0, k as int),
        decreases end - k,
    {
        assert(i32::MIN <= cs@[k as int].0 - cs@[k - 1].0 <= i32::MAX);
        assert(i32::MIN <= cs@[k as int].1 - cs@[k - 1].1 <= i32::MAX);
        let dx = cs[k].0 - cs[k - 1].0;
        let dy = cs[k].1 - cs[k - 1].1;
        geom.push(parameter_integer(dx) as u32);
        geom.push(parameter_integer(dy) as u32);
        assert(step_params(cs@, 0, k + 1) == step_params(cs@, 0, k as int) + seq![
            zigzag(dx),
            zigzag(dy),
        ]);
        assert(geom@ =~= start + head + step_params(cs@, 0, k + 1));
        k = k + 1;
    }
    assert(geom@ =~= start + path_geometry(cs@, end as int));
}

impl LayerBuilder {
    /// The tags of a feature with properties `props`, adding keys and values
    /// that the tables do not hold yet.
    fn tag(&mut self, props: &[(String, String)]) -> (r: Vec<u32>)
        requires
            old(self).wf(),
        ensures
            final(self).wf(),
            (final(self).key_table(), final(self).value_table(), r@) == tagged(
                old(self).key_table(),
                old(self).value_table(),
                props_view(props@),
            ),
            final(self).feature_list() == old(self).feature_list(),
            final(self).next_feature_id() == old(self).next_feature_id(),
            final(self).name_text() == old(self).name_text(),
            final(self).extent_value() == old(self).extent_value(),
    {
        let ghost pv = props_view(props@);
        let mut tags: Vec<u32> = Vec::new();
        let mut i: usize = 0;
        assert(pv.take(0) =~= Seq::<(Seq<char>, Seq<char>)>::empty());
        while i < props.len()
            invariant
                self.wf(),
                i <= props@.len(),
                pv == props_view(props@),
                (self.key_table(), self.value_table(), tags@) == tagged(
                    old(self).key_table(),
                    old(self).value_table(),
                    pv.take(i as int),
                ),
                self.feature_list() == old(self).feature_list(),
                self.next_feature_id() == old(self).next_feature_id(),
                self.name_text() == old(self).name_text(),
                self.extent_value() == old(self).extent_value(),
            decreases props@.len() - i,
        {
            let ki = self.get_key(props[i].0.as_str());
            let value = TileValue::from_text(props[i].1.as_str());
            let vi = self.get_value(&value);
            let ghost before = tags@;
            tags.push(ki);
            tags.push(vi);
            proof {
                assert(pv.take(i + 1).drop_last() =~= pv.take(i as int));
                assert(pv.take(i + 1).last() == pv[i as int]);
                assert(tags@ =~= before + seq![ki, vi]);
            }
            i = i + 1;
        }
        assert(pv.take(props@.len() as int) =~= pv);
        tags
    }

    fn push_feature(&mut self, tags: Vec<u32>, code: i32, geometry: Vec<u32>)
        requires
            old(self).next_feature_id() < u64::MAX,
        ensures
            final(self).key_table() == old(self).key_table(),
            final(self).value_table() == old(self).value_table(),
            final(self).feature_list() == old(self).feature_list().push(
                FeatureView {
                    id: Some(old(self).next_feature_id()),
                    tags: tags@,
                    geom_type: Some(code),
                    geometry: geometry@,
                },
            ),
            final(self).next_feature_id() == old(self).next_feature_id() + 1,
            final(self).name_text() == old(self).name_text(),
            final(self).extent_value() == old(self).extent_value(),
    {
        let ghost before = self.feature_list();
        self.features.push(TileFeature { id: Some(self.next_id), tags, geom_type: Some(code), geometry });
        self.next_id = self.next_id + 1;
        assert(self.feature_list() =~= before.push(
            FeatureView {
                id: Some(old(self).next_feature_id()),
                tags: tags@,
                geom_type: Some(code),
                geometry: geometry@,
            },
        ));
    }

    /// Add a point feature with properties.
    pub fn add_point(&mut self, x: i32, y: i32, props: &[(String, String)])
        requires
            old(self).wf(),
            old(self).next_feature_id() < u64::MAX,
        ensures
            final(self).wf(),
            adds_feature(
                *old(self),
                *final(self),
                props_view(props@),
                geom_code(GeomType::Point),
                point_geometry(x, y),
            ),
    {
        let tags = self.tag(props);
        let mut geom: Vec<u32> = Vec::new();
        geom.push(command_integer(1, 1));
        geom.push(parameter_integer(x) as u32);
        geom.push(parameter_integer(y) as u32);
        assert(geom@ =~= point_geometry(x, y));
        self.push_feature(tags, GeomType::Point.code(), geom);
    }

    /// Add a linestring feature; fewer than two points add nothing.
    pub fn add_linestring(&mut self, coords: &[(i32, i32)], props: &[(String, String)])
        requires
            old(self).wf(),
            old(self).next_feature_id() < u64::MAX,
            steps_fit(coords@, 0, coords@.len() as int),
        ensures
            final(self).wf(),
            coords@.len() < 2 ==> *final(self) == *old(self),
            coords@.len() >= 2 ==> adds_feature(
                *old(self),
                *final(self),
                props_view(props@),
                geom_code(GeomType::LineString),
                path_geometry(coords@, coords@.len() as int),
            ),
    {
        if coords.len() < 2 {
            return;
        }
        let tags = self.tag(props);
        let mut geom: Vec<u32> = Vec::new();
        write_path(&mut geom, coords, coords.len());
        assert(geom@ =~= path_geometry(coords@, coords@.len() as int));
        self.push_feature(tags, GeomType::LineString.code(), geom);
    }

    /// Add a polygon feature; rings of fewer than four points are skipped,
    /// and nothing is added when the first ring is one of them.
    pub fn add_polygon(&mut self, rings: &[Vec<(i32, i32)>], props: &[(String, String)])
        requires
            old(self).wf(),
            old(self).next_feature_id() < u64::MAX,
            rings_fit(rings_view(rings@)),
        ensures
            final(self).wf(),
            rings@.len() == 0 || rings@[0]@.len() < 4 ==> *final(self) == *old(self),
            !(rings@.len() == 0 || rings@[0]@.len() < 4) ==> adds_feature(
                *old(self),
                *final(self),
                props_view(props@),
                geom_code(GeomType::Polygon),
                rings_geometry(rings_view(rings@)),
            ),
    {
        if rings.len() == 0 || rings[0].len() < 4 {
            return;
        }
        let tags = self.tag(props);
        let ghost rv = rings_view(rings@);
        let mut geom: Vec<u32> = Vec::new();
        let mut i: usize = 0;
        assert(rv.take(0) =~= Seq::<Seq<(i32, i32)>>::empty());
        while i < rings.len()
            invariant
                i <= rings@.len(),
                rv == rings_view(rings@),
                rings_fit(rv),
                geom@ == rings_geometry(rv.take(i as int)),
            decreases rings@.len() - i,
        {
            let ring = &rings[i];
            proof {
                assert(rv.take(i + 1).drop_last() =~= rv.take(i as int));
                assert(rv.take(i + 1).last() == ring@);
                assert(rv[i as int] == ring@);
            }
            if ring.len() >= 4 {
                let n = ring.len();
                let end: usize = if ring[n - 1].0 == ring[0].0 && ring[n - 1].1 == ring[0].1 {
                    n - 1
                } else {
                    n
                };
                assert(end as int == ring_end(ring@));
                write_path(&mut geom, ring.as_slice(), end);
                geom.push(command_integer(7, 1));
                assert(geom@ =~= rings_geometry(rv.take(i + 1)));
            }
            i = i + 1;
        }
        assert(rv.take(rings@.len() as int) =~= rv);
        self.push_feature(tags, GeomType::Polygon.code(), geom);
    }

    /// The finished layer (format version 2).
    pub fn build(self) -> (r: TileLayer)
        ensures
            r.name@ == self.name_text(),
            r.extent == Some(self.extent_value()),
            r.version == 2,
            r.keys@.map_values(|k: String| k@) == self.key_table(),
            r.values@.map_values(|v: TileValue| v@) == self.value_table(),
            r.features@.map_values(|f: TileFeature| feature_view(f)) == self.feature_list(),
    {
        TileLayer {
            name: self.name,
            features: self.features,
            keys: self.keys,
            values: self.values,
            extent: Some(self.extent),
            version: 2,
        }
    }
}

} // verus!

verus! {

/// The points that a path's parameters walk through from `(x, y)`: each
/// pair of parameters is a step from the previous point.
pub open spec fn walk(x: int, y: int, steps: Seq<u32>) -> Seq<(int, int)>
    decreases steps.len(),
{
    if steps.len() < 2 {
        seq![(x, y)]
    } else {
        let prev = walk(x, y, steps.take(steps.len() - 2));
        prev.push(
            (
                prev.last().0 + unzigzag(steps[steps.len() - 2]),
                prev.last().1 + unzigzag(steps[steps.len() - 1]),
            ),
        )
    }
}

/// The points a path geometry (move-to, line-to and its parameters)
/// stands for.
pub open spec fn decoded_path(g: Seq<u32>) -> Seq<(int, int)> {
    walk(unzigzag(g[1]), unzigzag(g[2]), g.skip(4))
}

/// The points as pairs of integers.
pub open spec fn int_points(cs: Seq<(i32, i32)>) -> Seq<(int, int)> {
    cs.map_values(|p: (i32, i32)| (p.0 as int, p.1 as int))
}

proof fn lemma_step_params_len(cs: Seq<(i32, i32)>, end: int)
    requires
        1 <= end,
    ensures
        step_params(cs, 0, end).len() == 2 * (end - 1),
    decreases end,
{
    if end > 1 {
        lemma_step_params_len(cs, end - 1);
    }
}

proof fn lemma_walk_steps(cs: Seq<(i32, i32)>, end: int)
    requires
        1 <= end <= cs.len(),
        steps_fit(cs, 0, end),
    ensures
        walk(cs[0].0 as int, cs[0].1 as int, step_params(cs, 0, end)) == int_points(cs.take(end)),
    decreases end,
{
    lemma_step_params_len(cs, end);
    if end == 1 {
        assert(int_points(cs.take(1)) =~= seq![(cs[0].0 as int, cs[0].1 as int)]);
    } else {
        let steps = step_params(cs, 0, end);
        lemma_step_params_len(cs, end - 1);
        assert(steps.take(steps.len() - 2) =~= step_params(cs, 0, end - 1));
        assert(steps_fit(cs, 0, end - 1));
        lemma_walk_steps(cs, end - 1);
        let dx = (cs[end - 1].0 - cs[end - 2].0) as i32;
        let dy = (cs[end - 1].1 - cs[end - 2].1) as i32;
        assert(i32::MIN <= cs[end - 1].0 - cs[end - 2].0 <= i32::MAX);
        assert(i32::MIN <= cs[end - 1].1 - cs[end - 2].1 <= i32::MAX);
        lemma_zigzag_decodes(dx);
        lemma_zigzag_decodes(dy);
        assert(steps[steps.len() - 2] == zigzag(dx));
        assert(steps[steps.len() - 1] == zigzag(dy));
        assert(int_points(cs.take(end - 1)).last() == (cs[end - 2].0 as int, cs[end - 2].1 as int));
        assert(int_points(cs.take(end)) =~= int_points(cs.take(end - 1)).push(
            (cs[end - 1].0 as int, cs[end - 1].1 as int),
        ));
    }
}

/// A path geometry is a move-to with one point and a line-to with one
/// point fewer than the path, and decoding it gives back the points.
pub proof fn lemma_path_decodes(cs: Seq<(i32, i32)>, end: int)
    requires
        2 <= end <= cs.len(),
        steps_fit(cs, 0, end),
    ensures
        path_geometry(cs, end).len() == 2 * end + 2,
        path_geometry(cs, end)[0] == command(1, 1),
        path_geometry(cs, end)[3] == command(2, (end - 1) as u32),
        decoded_path(path_geometry(cs, end)) == int_points(cs.take(end)),
{
    let g = path_geometry(cs, end);
    lemma_step_params_len(cs, end);
    assert(g.skip(4) =~= step_params(cs, 0, end));
    lemma_zigzag_decodes(cs[0].0);
    lemma_zigzag_decodes(cs[0].1);
    lemma_walk_steps(cs, end);
}

/// The positions of the properties' keys and values in the tables.
pub open spec fn positions(
    keys: Seq<Seq<char>>,
    values: Seq<TileValueView>,
    props: Seq<(Seq<char>, Seq<char>)>,
) -> Seq<u32>
    decreases props.len(),
{
    if props.len() == 0 {
        seq![]
    } else {
        positions(keys, values, props.drop_last()) + seq![
            first_index(keys, equals(props.last().0)) as u32,
            first_index(values, equals(text_value(props.last().1))) as u32,
        ]
    }
}

/// The table holds the element.
pub open spec fn holds<A>(s: Seq<A>, a: A) -> bool {
    first_index(s, equals(a)) >= 0
}

/// Every key and value of the properties is in the tables.
pub open spec fn all_held(
    keys: Seq<Seq<char>>,
    values: Seq<TileValueView>,
    props: Seq<(Seq<char>, Seq<char>)>,
) -> bool {
    forall|i: int|
        0 <= i < props.len() ==> holds(keys, (#[trigger] props[i]).0) && holds(
            values,
            text_value(props[i].1),
        )
}

/// In a longer table that starts with `s`, what `s` holds is found where
/// it was.
proof fn lemma_first_index_extended<A>(s: Seq<A>, t: Seq<A>, a: A)
    requires
        s.len() <= t.len(),
        t.take(s.len() as int) == s,
        holds(s, a),
    ensures
        first_index(t, equals(a)) == first_index(s, equals(a)),
{
    let p = equals(a);
    lemma_first_index_facts(s, p);
    let i = first_index(s, p);
    assert forall|j: int| 0 <= j < i implies !p(#[trigger] t[j]) by {
        assert(t[j] == t.take(s.len() as int)[j]);
    }
    assert(t[i] == t.take(s.len() as int)[i]);
    lemma_first_index_is(t, p, i);
}

proof fn lemma_interned_facts<A>(s: Seq<A>, a: A)
    requires
        distinct(s),
    ensures
        ({
            let (t, i) = interned(s, a);
            &&& distinct(t)
            &&& s.len() <= t.len() <= s.len() + 1
            &&& t.take(s.len() as int) == s
            &&& holds(t, a)
            &&& first_index(t, equals(a)) == i
            &&& 0 <= i < t.len()
            &&& t[i] == a
        }),
{
    let p = equals(a);
    lemma_first_index_facts(s, p);
    if first_index(s, p) < 0 {
        let t = s.push(a);
        assert(t.take(s.len() as int) =~= s);
        assert forall|j: int| 0 <= j < s.len() implies !p(#[trigger] t[j]) by {
            assert(t[j] == s[j]);
        }
        lemma_first_index_is(t, p, s.len() as int);
    } else {
        assert(s.take(s.len() as int) =~= s);
    }
}

/// Positions in a table do not move when the table grows.
proof fn lemma_positions_extended(
    k: Seq<Seq<char>>,
    v: Seq<TileValueView>,
    k2: Seq<Seq<char>>,
    v2: Seq<TileValueView>,
    props: Seq<(Seq<char>, Seq<char>)>,
)
    requires
        k.len() <= k2.len(),
        k2.take(k.len() as int) == k,
        v.len() <= v2.len(),
        v2.take(v.len() as int) == v,
        all_held(k, v, props),
    ensures
        positions(k2, v2, props) == positions(k, v, props),
        all_held(k2, v2, props),
    decreases props.len(),
{
    if props.len() > 0 {
        let q = props.drop_last();
        assert(all_held(k, v, q)) by {
            assert forall|i: int| 0 <= i < q.len() implies holds(k, (#[trigger] q[i]).0) && holds(
                v,
                text_value(q[i].1),
            ) by {
                assert(q[i] == props[i]);
            }
        }
        lemma_positions_extended(k, v, k2, v2, q);
        let last = props.last();
        assert(last == props[props.len() - 1]);
        lemma_first_index_extended(k, k2, last.0);
        lemma_first_index_extended(v, v2, text_value(last.1));
        assert forall|i: int| 0 <= i < props.len() implies holds(k2, (#[trigger] props[i]).0)
            && holds(v2, text_value(props[i].1)) by {
            lemma_first_index_extended(k, k2, props[i].0);
            lemma_first_index_extended(v, v2, text_value(props[i].1));
        }
    }
}

proof fn lemma_tagged_facts(k: Seq<Seq<char>>, v: Seq<TileValueView>, props: Seq<(Seq<char>, Seq<char>)>)
    requires
        distinct(k),
        distinct(v),
    ensures
        ({
            let (k2, v2, t) = tagged(k, v, props);
            &&& distinct(k2)
            &&& distinct(v2)
            &&& k.len() <= k2.len() <= k.len() + props.len()
            &&& k2.take(k.len() as int) == k
            &&& v.len() <= v2.len() <= v.len() + props.len()
            &&& v2.take(v.len() as int) == v
            &&& all_held(k2, v2, props)
            &&& t == positions(k2, v2, props)
        }),
    decreases props.len(),
{
    if props.len() == 0 {
        assert(k.take(k.len() as int) =~= k);
        assert(v.take(v.len() as int) =~= v);
    } else {
        let q = props.drop_last();
        let last = props.last();
        lemma_tagged_facts(k, v, q);
        let (k1, v1, t1) = tagged(k, v, q);
        lemma_interned_facts(k1, last.0);
        lemma_interned_facts(v1, text_value(last.1));
        let (k2, ki) = interned(k1, last.0);
        let (v2, vi) = interned(v1, text_value(last.1));
        lemma_positions_extended(k1, v1, k2, v2, q);
        assert(k2.take(k.len() as int) =~= k1.take(k.len() as int));
        assert(v2.take(v.len() as int) =~= v1.take(v.len() as int));
        assert forall|i: int| 0 <= i < props.len() implies holds(k2, (#[trigger] props[i]).0)
            && holds(v2, text_value(props[i].1)) by {
            if i < q.len() {
                assert(props[i] == q[i]);
            }
        }
    }
}

/// Tagging a feature with properties whose keys and values the tables hold
/// adds nothing to the tables and gives their positions.
proof fn lemma_tagged_held(k: Seq<Seq<char>>, v: Seq<TileValueView>, props: Seq<(Seq<char>, Seq<char>)>)
    requires
        all_held(k, v, props),
    ensures
        tagged(k, v, props) == (k, v, positions(k, v, props)),
    decreases props.len(),
{
    if props.len() > 0 {
        let q = props.drop_last();
        assert(all_held(k, v, q)) by {
            assert forall|i: int| 0 <= i < q.len() implies holds(k, (#[trigger] q[i]).0) && holds(
                v,
                text_value(q[i].1),
            ) by {
                assert(q[i] == props[i]);
            }
        }
        lemma_tagged_held(k, v, q);
        assert(props.last() == props[props.len() - 1]);
    }
}

/// Shared keys and values: tagging a feature with the same properties as
/// the feature tagged just before adds no key or value and gives the same
/// tags.
pub proof fn lemma_same_properties_same_tags(
    k: Seq<Seq<char>>,
    v: Seq<TileValueView>,
    props: Seq<(Seq<char>, Seq<char>)>,
)
    requires
        distinct(k),
        distinct(v),
    ensures
        ({
            let (k1, v1, t1) = tagged(k, v, props);
            tagged(k1, v1, props) == (k1, v1, t1)
        }),
{
    lemma_tagged_facts(k, v, props);
    let (k1, v1, t1) = tagged(k, v, props);
    lemma_tagged_held(k1, v1, props);
}

/// Each pair of tags names its property: the key at the first index and
/// the text value at the second, as long as the tables stay below 2^32
/// entries.
pub proof fn lemma_tags_name_properties(
    k: Seq<Seq<char>>,
    v: Seq<TileValueView>,
    props: Seq<(Seq<char>, Seq<char>)>,
)
    requires
        distinct(k),
        distinct(v),
        k.len() + props.len() <= u32::MAX,
        v.len() + props.len() <= u32::MAX,
    ensures
        ({
            let (k1, v1, t) = tagged(k, v, props);
            &&& t.len() == 2 * props.len()
            &&& forall|i: int|
                0 <= i < props.len() ==> k1[t[2 * i] as int] == (#[trigger] props[i]).0 && v1[t[2 * i
                    + 1] as int] == text_value(props[i].1)
        }),
{
    lemma_tagged_facts(k, v, props);
    let (k1, v1, t) = tagged(k, v, props);
    lemma_positions_index(k1, v1, props);
}

proof fn lemma_positions_index(k: Seq<Seq<char>>, v: Seq<TileValueView>, props: Seq<(Seq<char>, Seq<char>)>)
    requires
        all_held(k, v, props),
        k.len() <= u32::MAX,
        v.len() <= u32::MAX,
    ensures
        positions(k, v, props).len() == 2 * props.len(),
        forall|i: int|
            0 <= i < props.len() ==> k[positions(k, v, props)[2 * i] as int] == (#[trigger] props[i]).0
                && v[positions(k, v, props)[2 * i + 1] as int] == text_value(props[i].1),
    decreases props.len(),
{
    if props.len() > 0 {
        let q = props.drop_last();
        assert(all_held(k, v, q)) by {
            assert forall|i: int| 0 <= i < q.len() implies holds(k, (#[trigger] q[i]).0) && holds(
                v,
                text_value(q[i].1),
            ) by {
                assert(q[i] == props[i]);
            }
        }
        lemma_positions_index(k, v, q);
        let ps = positions(k, v, props);
        assert forall|i: int| 0 <= i < props.len() implies k[ps[2 * i] as int] == (
        #[trigger] props[i]).0 && v[ps[2 * i + 1] as int] == text_value(props[i].1) by {
            let pk = equals(props[i].0);
            let pv = equals(text_value(props[i].1));
            lemma_first_index_facts(k, pk);
            lemma_first_index_facts(v, pv);
            if i < q.len() {
                assert(props[i] == q[i]);
                assert(ps[2 * i] == positions(k, v, q)[2 * i]);
                assert(ps[2 * i + 1] == positions(k, v, q)[2 * i + 1]);
            } else {
                assert(props[i] == props.last());
            }
        }
    }
}

} // verus!
