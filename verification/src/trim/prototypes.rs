//! Locating prototypes in a `data.raw` dump, and cutting them down to size.

use vstd::prelude::*;
use crate::json::{jget, lemma_object_view, put, views_of, Json, JsonView};
use crate::strmap::StrMap;
use crate::text;
use crate::trim::spec::TrimSpec;

verus! {

/// The prototypes named `name`, with their types, in type order: one for
/// each type whose table is an object holding that name.
pub open spec fn candidates(e: Seq<(String, Json)>, name: Seq<char>) -> Seq<(Seq<char>, JsonView)>
    decreases e.len(),
{
    if e.len() == 0 {
        Seq::empty()
    } else {
        let r = candidates(e.drop_last(), name);
        match jget(e.last().1.jv(), name) {
            Some(p) => r.push((e.last().0@, p)),
            None => r,
        }
    }
}

/// A prototype that can be placed: it has a `collision_box`.
pub open spec fn placeable(p: JsonView) -> bool {
    jget(p, "collision_box"@) is Some
}

/// The first placeable candidate, if any.
pub open spec fn first_placeable(c: Seq<(Seq<char>, JsonView)>) -> Option<int>
    decreases c.len(),
{
    if c.len() == 0 {
        None
    } else if placeable(c[0].1) {
        Some(0)
    } else {
        match first_placeable(c.drop_first()) {
            Some(i) => Some(i + 1),
            None => None,
        }
    }
}

/// What `find_prototype` picks: the first placeable candidate, or else the
/// first candidate, or nothing.
pub open spec fn find_spec(e: Seq<(String, Json)>, name: Seq<char>) -> Option<(Seq<char>, JsonView)> {
    let c = candidates(e, name);
    match first_placeable(c) {
        Some(i) => Some(c[i]),
        None => if c.len() > 0 {
            Some(c[0])
        } else {
            None
        },
    }
}

proof fn lemma_first_placeable(c: Seq<(Seq<char>, JsonView)>, k: int)
    requires
        0 <= k <= c.len(),
        forall|j: int| 0 <= j < k ==> !placeable(#[trigger] c[j].1),
    ensures
        k < c.len() && placeable(c[k].1) ==> first_placeable(c) == Some(k),
        k == c.len() ==> first_placeable(c) is None,
    decreases c.len(),
{
    if c.len() > 0 && k > 0 {
        let d = c.drop_first();
        assert(!placeable(c[0].1));
        assert forall|j: int| 0 <= j < k - 1 implies !placeable(#[trigger] d[j].1) by {
            assert(d[j] == c[j + 1]);
        }
        lemma_first_placeable(d, k - 1);
        if k < c.len() {
            assert(d[k - 1] == c[k]);
        }
    }
}

/// Finds a prototype by name, searching every prototype type.
///
/// `data.raw` is keyed by prototype TYPE, not by name, and the names a consumer
/// cares about are scattered across types nobody would guess: a pumpjack is a
/// `mining-drill`, a stone wall is a `wall`. Most names exist more than once,
/// and the item you carry has none of the geometry, so the candidate with a
/// `collision_box` wins. When nothing has one there is no right answer, only
/// a stable one: the first in type order.
pub fn find_prototype<'a>(raw: &'a StrMap<Json>, name: &str) -> (r: Option<(String, &'a Json)>)
    ensures
        match (r, find_spec(raw.entries@, name@)) {
            (Some((kind, p)), Some((k, v))) => kind@ == k && p.jv() == v,
            (None, None) => true,
            _ => false,
        },
{
    let e = &raw.entries;
    // Every type holding the name, by its index in `raw`.
    let mut found: Vec<usize> = Vec::new();
    let mut i: usize = 0;
    while i < e.len()
        invariant
            i <= e.len(),
            found.len() == candidates(e@.take(i as int), name@).len(),
            forall|j: int|
                0 <= j < found.len() ==> {
                    let t = #[trigger] found@[j];
                    &&& 0 <= t < e.len()
                    &&& candidates(e@.take(i as int), name@)[j] == (e@[t as int].0@, jget(e@[t as int].1.jv(), name@)->0)
                    &&& jget(e@[t as int].1.jv(), name@) is Some
                },
        decreases e.len() - i,
    {
        let ghost t1 = e@.take(i + 1);
        assert(t1.drop_last() =~= e@.take(i as int));
        assert(t1.last() == e@[i as int]);
        if e[i].1.get(name).is_some() {
            found.push(i);
        }
        i = i + 1;
    }
    assert(e@.take(e.len() as int) =~= e@);
    let ghost c = candidates(e@, name@);
    let mut k: usize = 0;
    while k < found.len()
        invariant
            k <= found.len(),
            e@ == raw.entries@,
            c == candidates(e@, name@),
            found.len() == c.len(),
            forall|j: int|
                0 <= j < found.len() ==> {
                    let t = #[trigger] found@[j];
                    &&& 0 <= t < e.len()
                    &&& c[j] == (e@[t as int].0@, jget(e@[t as int].1.jv(), name@)->0)
                    &&& jget(e@[t as int].1.jv(), name@) is Some
                },
            forall|j: int| 0 <= j < k ==> !placeable(#[trigger] c[j].1),
        decreases found.len() - k,
    {
        let t = found[k];
        assert(found@[k as int] == t);
        match e[t].1.get(name) {
            Some(p) => {
                let cb = p.get("collision_box");
                if cb.is_some() {
                    proof {
                        assert(c[k as int].1 == p.jv());
                        assert(placeable(c[k as int].1));
                        lemma_first_placeable(c, k as int);
                    }
                    return Some((e[t].0.clone(), p));
                }
            },
            None => {},
        }
        k = k + 1;
    }
    proof {
        lemma_first_placeable(c, k as int);
    }
    if found.len() > 0 {
        let t = found[0];
        assert(found@[0] == t);
        match e[t].1.get(name) {
            Some(p) => Some((e[t].0.clone(), p)),
            None => None,
        }
    } else {
        None
    }
}


/// `m` with each of `fields` that `v` has copied in, in order.
pub open spec fn with_fields(
    m: Map<Seq<char>, JsonView>,
    v: JsonView,
    fields: Seq<Seq<char>>,
) -> Map<Seq<char>, JsonView>
    decreases fields.len(),
{
    if fields.len() == 0 {
        m
    } else {
        let r = with_fields(m, v, fields.drop_last());
        match jget(v, fields.last()) {
            Some(x) => r.insert(fields.last(), x),
            None => r,
        }
    }
}

/// The connections of a fluid box, each cut down to `keys`; nothing when
/// the box has no `pipe_connections` list.
pub open spec fn connections_spec(fluid_box: JsonView, keys: Seq<Seq<char>>) -> Seq<JsonView> {
    match jget(fluid_box, "pipe_connections"@) {
        Some(JsonView::Array(cs)) => cs.map_values(
            |c: JsonView| JsonView::Object(with_fields(Map::empty(), c, keys)),
        ),
        _ => Seq::empty(),
    }
}

/// `c` is `src` cut down to `keys`: an object holding exactly those of `keys`
/// that `src` has, each with `src`'s value.
pub open spec fn cut_to(c: JsonView, src: JsonView, keys: Seq<Seq<char>>) -> bool {
    match c {
        JsonView::Object(m) => forall|k: Seq<char>|
            #![trigger m.dom().contains(k)]
            (m.dom().contains(k) <==> (keys.contains(k) && jget(src, k) is Some)) && (m.dom().contains(k) ==> Some(m[k])
                == jget(src, k)),
        _ => false,
    }
}

/// The fluid box's `pipe_connections`, when it is a list.
pub open spec fn pipe_list(fluid_box: JsonView) -> Option<Seq<JsonView>> {
    match jget(fluid_box, "pipe_connections"@) {
        Some(JsonView::Array(cs)) => Some(cs),
        _ => None,
    }
}

proof fn lemma_with_fields_empty(v: JsonView, fields: Seq<Seq<char>>, k: Seq<char>)
    ensures
        with_fields(Map::empty(), v, fields).dom().contains(k) <==> (fields.contains(k) && jget(v, k) is Some),
        with_fields(Map::empty(), v, fields).dom().contains(k) ==> Some(with_fields(Map::empty(), v, fields)[k])
            == jget(v, k),
    decreases fields.len(),
{
    if fields.len() > 0 {
        let f0 = fields.drop_last();
        lemma_with_fields_empty(v, f0, k);
        assert(fields.last() == fields[fields.len() - 1]);
        if fields.contains(k) && !f0.contains(k) {
            let i = choose|i: int| 0 <= i < fields.len() && fields[i] == k;
            if i < f0.len() {
                assert(f0[i] == k);
            }
        }
        if f0.contains(k) {
            let i = choose|i: int| 0 <= i < f0.len() && f0[i] == k;
            assert(fields[i] == k);
        }
    }
}

/// Trimming a fluid box keeps every one of its connections, in order, each
/// cut down to exactly the asked-for keys it has; a box whose
/// `pipe_connections` is not a list gives none.
pub proof fn law_every_connection_is_kept(fluid_box: JsonView, keys: Seq<Seq<char>>)
    ensures
        pipe_list(fluid_box) is None ==> connections_spec(fluid_box, keys).len() == 0,
        forall|i: int|
            #![trigger connections_spec(fluid_box, keys)[i]]
            pipe_list(fluid_box) is Some && 0 <= i < (pipe_list(fluid_box)->0).len() ==> cut_to(
                connections_spec(fluid_box, keys)[i],
                (pipe_list(fluid_box)->0)[i],
                keys,
            ),
        pipe_list(fluid_box) is Some ==> connections_spec(fluid_box, keys).len() == (pipe_list(fluid_box)->0).len(),
{
    if pipe_list(fluid_box) is Some {
        let cs = pipe_list(fluid_box)->0;
        assert forall|i: int|
            #![trigger connections_spec(fluid_box, keys)[i]]
            0 <= i < cs.len() implies cut_to(connections_spec(fluid_box, keys)[i], cs[i], keys) by {
            assert(connections_spec(fluid_box, keys)[i] == JsonView::Object(with_fields(Map::empty(), cs[i], keys)));
            assert forall|k: Seq<char>| #![trigger with_fields(Map::empty(), cs[i], keys).dom().contains(k)]
                true implies (with_fields(Map::empty(), cs[i], keys).dom().contains(k) <==> (keys.contains(k) && jget(cs[i], k) is Some))
                    && (with_fields(Map::empty(), cs[i], keys).dom().contains(k) ==> Some(with_fields(Map::empty(), cs[i], keys)[k]) == jget(cs[i], k)) by {
                lemma_with_fields_empty(cs[i], keys, k);
            }
        }
    }
}

/// `m` with each of `boxes` that the prototype has and whose connections are
/// not all gone, kept as its trimmed `pipe_connections` alone.
pub open spec fn with_boxes(
    m: Map<Seq<char>, JsonView>,
    proto: JsonView,
    boxes: Seq<Seq<char>>,
    keys: Seq<Seq<char>>,
) -> Map<Seq<char>, JsonView>
    decreases boxes.len(),
{
    if boxes.len() == 0 {
        m
    } else {
        let r = with_boxes(m, proto, boxes.drop_last(), keys);
        match jget(proto, boxes.last()) {
            Some(fb) => {
                let cs = connections_spec(fb, keys);
                if cs.len() > 0 {
                    r.insert(
                        boxes.last(),
                        JsonView::Object(Map::empty().insert("pipe_connections"@, JsonView::Array(cs))),
                    )
                } else {
                    r
                }
            },
            None => r,
        }
    }
}

/// The trimmed prototype: its type, the asked-for fields it has, then the
/// asked-for fluid boxes with their connections trimmed. A later entry of
/// the same name overwrites an earlier one.
pub open spec fn trim_entity_spec(kind: Seq<char>, proto: JsonView, spec: TrimSpec) -> JsonView {
    JsonView::Object(
        with_boxes(
            with_fields(
                Map::empty().insert("prototypeType"@, JsonView::Str(kind)),
                proto,
                text::strs(spec.entity_fields@),
            ),
            proto,
            text::strs(spec.fluid_boxes@),
            text::strs(spec.connection_fields@),
        ),
    )
}

proof fn lemma_with_fields(m: Map<Seq<char>, JsonView>, v: JsonView, fields: Seq<Seq<char>>, k: Seq<char>)
    ensures
        with_fields(m, v, fields).dom().contains(k) <==> (m.dom().contains(k) || (fields.contains(k) && jget(v, k) is Some)),
        fields.contains(k) && jget(v, k) is Some ==> Some(with_fields(m, v, fields)[k]) == jget(v, k),
        !fields.contains(k) ==> with_fields(m, v, fields)[k] == m[k],
    decreases fields.len(),
{
    if fields.len() > 0 {
        let f0 = fields.drop_last();
        lemma_with_fields(m, v, f0, k);
        assert(fields.last() == fields[fields.len() - 1]);
        if fields.contains(k) && !f0.contains(k) {
            let i = choose|i: int| 0 <= i < fields.len() && fields[i] == k;
            if i < f0.len() {
                assert(f0[i] == k);
            }
        }
        if f0.contains(k) {
            let i = choose|i: int| 0 <= i < f0.len() && f0[i] == k;
            assert(fields[i] == k);
        }
    }
}

/// Box `b` of the prototype is kept: the prototype has it and some of its
/// connections survive.
pub open spec fn box_kept(proto: JsonView, b: Seq<char>, keys: Seq<Seq<char>>) -> bool {
    jget(proto, b) is Some && connections_spec(jget(proto, b)->0, keys).len() > 0
}

/// What a kept box becomes: an object holding its trimmed connections alone.
pub open spec fn kept_box(proto: JsonView, b: Seq<char>, keys: Seq<Seq<char>>) -> JsonView {
    JsonView::Object(
        Map::empty().insert("pipe_connections"@, JsonView::Array(connections_spec(jget(proto, b)->0, keys))),
    )
}

proof fn lemma_with_boxes(
    m: Map<Seq<char>, JsonView>,
    proto: JsonView,
    boxes: Seq<Seq<char>>,
    keys: Seq<Seq<char>>,
    k: Seq<char>,
)
    ensures
        with_boxes(m, proto, boxes, keys).dom().contains(k) <==> (m.dom().contains(k) || (boxes.contains(k) && box_kept(
            proto,
            k,
            keys,
        ))),
        boxes.contains(k) && box_kept(proto, k, keys) ==> with_boxes(m, proto, boxes, keys)[k] == kept_box(proto, k, keys),
        !boxes.contains(k) ==> with_boxes(m, proto, boxes, keys)[k] == m[k],
    decreases boxes.len(),
{
    if boxes.len() > 0 {
        let b0 = boxes.drop_last();
        lemma_with_boxes(m, proto, b0, keys, k);
        assert(boxes.last() == boxes[boxes.len() - 1]);
        if boxes.contains(k) && !b0.contains(k) {
            let i = choose|i: int| 0 <= i < boxes.len() && boxes[i] == k;
            if i < b0.len() {
                assert(b0[i] == k);
            }
        }
        if b0.contains(k) {
            let i = choose|i: int| 0 <= i < b0.len() && b0[i] == k;
            assert(boxes[i] == k);
        }
    }
}

/// What a trimmed prototype holds, for any prototype and any request:
/// - every asked-for fluid box the prototype has, with some connection, as
///   an object holding just its trimmed `pipe_connections`;
/// - every asked-for field the prototype has (and that is not also an
///   asked-for box) with the prototype's own value;
/// - its type under `prototypeType`, unless a field or box of that name
///   was asked for;
/// - and nothing else.
pub proof fn law_what_a_trimmed_prototype_holds(kind: Seq<char>, proto: JsonView, spec: TrimSpec, k: Seq<char>)
    ensures
        ({
            let r = trim_entity_spec(kind, proto, spec);
            let fields = text::strs(spec.entity_fields@);
            let boxes = text::strs(spec.fluid_boxes@);
            let keys = text::strs(spec.connection_fields@);
            &&& boxes.contains(k) && box_kept(proto, k, keys) ==> jget(r, k) == Some(kept_box(proto, k, keys))
            &&& fields.contains(k) && !boxes.contains(k) && jget(proto, k) is Some ==> jget(r, k) == jget(proto, k)
            &&& k == "prototypeType"@ && !fields.contains(k) && !boxes.contains(k) ==> jget(r, k) == Some(
                JsonView::Str(kind),
            )
            &&& jget(r, k) is Some ==> (k == "prototypeType"@ || fields.contains(k) || boxes.contains(k))
        }),
{
    let fields = text::strs(spec.entity_fields@);
    let boxes = text::strs(spec.fluid_boxes@);
    let keys = text::strs(spec.connection_fields@);
    let m0 = Map::<Seq<char>, JsonView>::empty().insert("prototypeType"@, JsonView::Str(kind));
    let m1 = with_fields(m0, proto, fields);
    lemma_with_fields(m0, proto, fields, k);
    lemma_with_boxes(m1, proto, boxes, keys, k);
}

/// Copies into `m` each of `fields` that `v` has.
fn copy_fields(m: &mut StrMap<Json>, v: &Json, fields: &Vec<String>)
    requires
        old(m).wf(),
    ensures
        final(m).wf(),
        views_of(final(m).view_map()) == with_fields(views_of(old(m).view_map()), v.jv(), text::strs(fields@)),
{
    let ghost start = views_of(m.view_map());
    let mut i: usize = 0;
    while i < fields.len()
        invariant
            i <= fields.len(),
            m.wf(),
            views_of(m.view_map()) == with_fields(start, v.jv(), text::strs(fields@).take(i as int)),
        decreases fields.len() - i,
    {
        let ghost t1 = text::strs(fields@).take(i + 1);
        assert(t1.drop_last() =~= text::strs(fields@).take(i as int));
        assert(t1.last() == fields@[i as int]@);
        match v.get(fields[i].as_str()) {
            Some(x) => {
                let c = x.copy();
                put(m, fields[i].clone(), c);
            },
            None => {},
        }
        i = i + 1;
    }
    assert(text::strs(fields@).take(fields.len() as int) =~= text::strs(fields@));
}

/// Keeps only the connection keys the caller asked for.
fn trim_connections(fluid_box: &Json, spec: &TrimSpec) -> (r: Vec<Json>)
    ensures
        r@.map_values(|j: Json| j.jv()) == connections_spec(fluid_box.jv(), text::strs(spec.connection_fields@)),
{
    let ghost keys = text::strs(spec.connection_fields@);
    let mut out: Vec<Json> = Vec::new();
    match fluid_box.get("pipe_connections") {
        Some(Json::Array(conns)) => {
            let mut i: usize = 0;
            while i < conns.len()
                invariant
                    i <= conns.len(),
                    keys == text::strs(spec.connection_fields@),
                    out.len() == i,
                    forall|j: int|
                        0 <= j < i ==> (#[trigger] out@[j]).jv() == JsonView::Object(
                            with_fields(Map::empty(), conns@[j].jv(), keys),
                        ),
                decreases conns.len() - i,
            {
                let mut kept: StrMap<Json> = StrMap::new();
                proof {
                    assert(views_of(kept.view_map()) =~= Map::<Seq<char>, JsonView>::empty());
                }
                copy_fields(&mut kept, &conns[i], &spec.connection_fields);
                proof {
                    lemma_object_view(kept);
                }
                out.push(Json::Object(kept));
                i = i + 1;
            }
            proof {
                let want = connections_spec(fluid_box.jv(), keys);
                assert(out@.map_values(|j: Json| j.jv()) =~= want);
            }
        },
        _ => {
            proof {
                assert(out@.map_values(|j: Json| j.jv()) =~= connections_spec(fluid_box.jv(), keys));
            }
        },
    }
    out
}

/// Cuts one prototype down to the fields the caller asked for.
///
/// A field the prototype does not have is skipped rather than written as
/// null: one flat allowlist covers every prototype type, so most fields are
/// absent from most prototypes. `prototypeType` is recorded because it is the
/// thing a name lookup had to discover. A fluid box whose trimmed connection
/// list would be empty is left out entirely.
pub fn trim_entity(kind: &str, proto: &Json, spec: &TrimSpec) -> (r: Json)
    ensures
        r.jv() == trim_entity_spec(kind@, proto.jv(), *spec),
{
    let mut trimmed: StrMap<Json> = StrMap::new();
    proof {
        assert(views_of(trimmed.view_map()) =~= Map::<Seq<char>, JsonView>::empty());
    }
    put(&mut trimmed, "prototypeType".to_string(), Json::Str(kind.to_string()));
    copy_fields(&mut trimmed, proto, &spec.entity_fields);
    let ghost boxes = text::strs(spec.fluid_boxes@);
    let ghost keys = text::strs(spec.connection_fields@);
    let ghost base = with_fields(
        Map::empty().insert("prototypeType"@, JsonView::Str(kind@)),
        proto.jv(),
        text::strs(spec.entity_fields@),
    );
    let mut i: usize = 0;
    while i < spec.fluid_boxes.len()
        invariant
            i <= spec.fluid_boxes.len(),
            trimmed.wf(),
            boxes == text::strs(spec.fluid_boxes@),
            keys == text::strs(spec.connection_fields@),
            views_of(trimmed.view_map()) == with_boxes(base, proto.jv(), boxes.take(i as int), keys),
        decreases spec.fluid_boxes.len() - i,
    {
        let ghost t1 = boxes.take(i + 1);
        assert(t1.drop_last() =~= boxes.take(i as int));
        assert(t1.last() == spec.fluid_boxes@[i as int]@);
        match proto.get(spec.fluid_boxes[i].as_str()) {
            Some(fb) => {
                let connections = trim_connections(fb, spec);
                if connections.len() > 0 {
                    let ghost cs = connections@.map_values(|j: Json| j.jv());
                    let mut kept: StrMap<Json> = StrMap::new();
                    proof {
                        assert(views_of(kept.view_map()) =~= Map::<Seq<char>, JsonView>::empty());
                    }
                    let arr = Json::Array(connections);
                    proof {
                        assert(arr.jv()->Array_0 =~= cs);
                    }
                    put(&mut kept, "pipe_connections".to_string(), arr);
                    proof {
                        lemma_object_view(kept);
                    }
                    put(&mut trimmed, spec.fluid_boxes[i].clone(), Json::Object(kept));
                }
            },
            None => {},
        }
        i = i + 1;
    }
    assert(boxes.take(spec.fluid_boxes.len() as int) =~= boxes);
    proof {
        lemma_object_view(trimmed);
    }
    Json::Object(trimmed)
}

} // verus!
