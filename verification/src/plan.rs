//! The structure of ExifTool's flat JSON output for a Vantrue clip: which
//! `Doc` groups it holds, in which order they play, and which of each
//! group's fields make up its GPS and accelerometer samples.
//!
//! Keys have the form `Doc<n>:<Field>`.  Each `Doc` group covers one second of
//! video; the groups are ordered by their number (ties by name).
use vstd::prelude::*;
use crate::fields::{SpeedUnit, spec_speed_unit, speed_unit, spec_doc_number, doc_number};
use crate::text::{chars_of, find_from, first_match_from, slice_of, string_of};

verus! {

/// The value of one JSON entry, as far as telemetry parsing reads it.
pub enum FieldValue {
    /// A JSON string.
    Text(String),
    /// A JSON number; its value stays with the caller.
    Number,
    /// Any other JSON value.
    Other,
}

/// One `key: value` entry of the top-level JSON object.
pub struct JsonEntry {
    pub key: String,
    pub value: FieldValue,
}

/// Where the pieces of one GPS sample are found.
pub struct GpsPlan {
    /// The `GPSLatitude` text (a DMS coordinate).
    pub latitude: String,
    /// The `GPSLongitude` text (a DMS coordinate).
    pub longitude: String,
    /// The `GPSDateTime` text.
    pub timestamp: String,
    /// The entry whose number is the `GPSSpeed`, if that entry is a number.
    pub speed_entry: Option<usize>,
    /// The entry whose number is the `GPSTrack` heading, if that entry is a number.
    pub heading_entry: Option<usize>,
    /// The unit of the speed.
    pub unit: SpeedUnit,
}

/// One `Doc` group: one second of telemetry.
pub struct DocPlan {
    pub doc_id: String,
    pub gps: Option<GpsPlan>,
    /// The `Accelerometer` text (three numbers), if it is a string.
    pub accel: Option<String>,
}

/// `str::starts_with` with a string pattern.
pub open spec fn has_prefix(s: Seq<char>, p: Seq<char>) -> bool {
    p.len() <= s.len() && s.take(p.len() as int) == p
}

/// The `Doc` group that a key belongs to: the text before its first `:`,
/// where that text starts with `Doc`.
pub open spec fn key_doc(key: Seq<char>) -> Option<Seq<char>> {
    match first_match_from(key, seq![':'], 0) {
        Some(i) => if has_prefix(key.take(i), seq!['D', 'o', 'c']) {
            Some(key.take(i))
        } else {
            None
        },
        None => None,
    }
}

/// The key of field `name` of group `doc`.
pub open spec fn field_key(doc: Seq<char>, name: Seq<char>) -> Seq<char> {
    doc + seq![':'] + name
}

/// Whether no two entries share a key, as in a JSON object.
pub open spec fn distinct_keys(entries: Seq<JsonEntry>) -> bool {
    forall|i: int, j: int|
        0 <= i < entries.len() && 0 <= j < entries.len() && i != j ==> #[trigger] entries[i].key@
            != #[trigger] entries[j].key@
}

/// The entry with the given key.
pub open spec fn entry_index(entries: Seq<JsonEntry>, key: Seq<char>) -> Option<int> {
    if exists|i: int| 0 <= i < entries.len() && #[trigger] entries[i].key@ == key {
        Some(choose|i: int| 0 <= i < entries.len() && #[trigger] entries[i].key@ == key)
    } else {
        None
    }
}

/// The string under the given key (`get(key).and_then(as_str)`).
pub open spec fn text_at(entries: Seq<JsonEntry>, key: Seq<char>) -> Option<Seq<char>> {
    match entry_index(entries, key) {
        Some(i) => match entries[i].value {
            FieldValue::Text(t) => Some(t@),
            _ => None,
        },
        None => None,
    }
}

/// The entry holding a number under the given key (`get(key).and_then(as_f64)`).
pub open spec fn number_at(entries: Seq<JsonEntry>, key: Seq<char>) -> Option<int> {
    match entry_index(entries, key) {
        Some(i) => match entries[i].value {
            FieldValue::Number => Some(i),
            _ => None,
        },
        None => None,
    }
}

/// The field names that telemetry parsing reads.
pub open spec fn name_latitude() -> Seq<char> {
    seq!['G', 'P', 'S', 'L', 'a', 't', 'i', 't', 'u', 'd', 'e']
}

pub open spec fn name_longitude() -> Seq<char> {
    seq!['G', 'P', 'S', 'L', 'o', 'n', 'g', 'i', 't', 'u', 'd', 'e']
}

pub open spec fn name_datetime() -> Seq<char> {
    seq!['G', 'P', 'S', 'D', 'a', 't', 'e', 'T', 'i', 'm', 'e']
}

pub open spec fn name_speed() -> Seq<char> {
    seq!['G', 'P', 'S', 'S', 'p', 'e', 'e', 'd']
}

pub open spec fn name_speed_ref() -> Seq<char> {
    seq!['G', 'P', 'S', 'S', 'p', 'e', 'e', 'd', 'R', 'e', 'f']
}

pub open spec fn name_track() -> Seq<char> {
    seq!['G', 'P', 'S', 'T', 'r', 'a', 'c', 'k']
}

pub open spec fn name_accelerometer() -> Seq<char> {
    seq!['A', 'c', 'c', 'e', 'l', 'e', 'r', 'o', 'm', 'e', 't', 'e', 'r']
}

/// The speed unit of group `doc`: its own `GPSSpeedRef`, else the top-level
/// `GPSSpeedRef`, else `K`.
pub open spec fn speed_ref_of(entries: Seq<JsonEntry>, doc: Seq<char>) -> Seq<char> {
    match text_at(entries, field_key(doc, name_speed_ref())) {
        Some(r) => r,
        None => match text_at(entries, name_speed_ref()) {
            Some(r) => r,
            None => seq!['K'],
        },
    }
}

/// Whether group `doc` has a GPS sample: latitude, longitude and date-time
/// are all strings.
pub open spec fn has_gps(entries: Seq<JsonEntry>, doc: Seq<char>) -> bool {
    &&& text_at(entries, field_key(doc, name_latitude())) is Some
    &&& text_at(entries, field_key(doc, name_longitude())) is Some
    &&& text_at(entries, field_key(doc, name_datetime())) is Some
}

/// Whether `g` is the GPS plan of group `doc`.
pub open spec fn gps_plan_matches(entries: Seq<JsonEntry>, doc: Seq<char>, g: GpsPlan) -> bool {
    &&& Some(g.latitude@) == text_at(entries, field_key(doc, name_latitude()))
    &&& Some(g.longitude@) == text_at(entries, field_key(doc, name_longitude()))
    &&& Some(g.timestamp@) == text_at(entries, field_key(doc, name_datetime()))
    &&& opt_usize_int(g.speed_entry) == number_at(entries, field_key(doc, name_speed()))
    &&& opt_usize_int(g.heading_entry) == number_at(entries, field_key(doc, name_track()))
    &&& g.unit == spec_speed_unit(speed_ref_of(entries, doc))
}

/// An optional index as an optional integer.
pub open spec fn opt_usize_int(o: Option<usize>) -> Option<int> {
    match o {
        Some(i) => Some(i as int),
        None => None,
    }
}

/// The view of an optional string.
pub open spec fn opt_string_view(o: Option<String>) -> Option<Seq<char>> {
    match o {
        Some(s) => Some(s@),
        None => None,
    }
}

/// Whether `p` is the plan of group `p.doc_id`.
pub open spec fn doc_plan_matches(entries: Seq<JsonEntry>, p: DocPlan) -> bool {
    let doc = p.doc_id@;
    &&& p.gps is Some == has_gps(entries, doc)
    &&& p.gps matches Some(g) ==> gps_plan_matches(entries, doc, g)
    &&& opt_string_view(p.accel) == text_at(entries, field_key(doc, name_accelerometer()))
}

/// Code-point (equivalently, UTF-8 byte) lexicographic order, as `String`'s `Ord`.
pub open spec fn seq_lt(a: Seq<char>, b: Seq<char>) -> bool
    decreases a.len(),
{
    if a.len() == 0 {
        b.len() > 0
    } else if b.len() == 0 {
        false
    } else if a[0] != b[0] {
        (a[0] as u32) < (b[0] as u32)
    } else {
        seq_lt(a.drop_first(), b.drop_first())
    }
}

/// Play order of `Doc` groups: by number, then by name.
pub open spec fn doc_before(a: Seq<char>, b: Seq<char>) -> bool {
    spec_doc_number(a) < spec_doc_number(b) || (spec_doc_number(a) == spec_doc_number(b)
        && seq_lt(a, b))
}

proof fn lemma_seq_lt_irreflexive(a: Seq<char>)
    ensures
        !seq_lt(a, a),
    decreases a.len(),
{
    if a.len() > 0 {
        lemma_seq_lt_irreflexive(a.drop_first());
    }
}

proof fn lemma_seq_lt_transitive(a: Seq<char>, b: Seq<char>, c: Seq<char>)
    requires
        seq_lt(a, b),
        seq_lt(b, c),
    ensures
        seq_lt(a, c),
    decreases a.len(),
{
    if a.len() > 0 && b.len() > 0 && c.len() > 0 && a[0] == b[0] && b[0] == c[0] {
        lemma_seq_lt_transitive(a.drop_first(), b.drop_first(), c.drop_first());
    }
}

proof fn lemma_seq_lt_total(a: Seq<char>, b: Seq<char>)
    requires
        a != b,
    ensures
        seq_lt(a, b) || seq_lt(b, a),
    decreases a.len(),
{
    if a.len() > 0 && b.len() > 0 && a[0] == b[0] {
        if a.drop_first() == b.drop_first() {
            assert(a == seq![a[0]] + a.drop_first());
            assert(b == seq![b[0]] + b.drop_first());
        }
        lemma_seq_lt_total(a.drop_first(), b.drop_first());
    } else if a.len() == 0 && b.len() == 0 {
        assert(a == b);
    } else if a.len() > 0 && b.len() > 0 {
        let (x, y) = (a[0], b[0]);
        vstd::utf8::char_u32_cast(x, x as u32);
        vstd::utf8::char_u32_cast(y, y as u32);
    }
}

/// Play order is a strict total order on group names.
pub proof fn law_doc_order_is_strict_total(a: Seq<char>, b: Seq<char>, c: Seq<char>)
    ensures
        !doc_before(a, a),
        doc_before(a, b) && doc_before(b, c) ==> doc_before(a, c),
        a != b ==> doc_before(a, b) || doc_before(b, a),
{
    lemma_seq_lt_irreflexive(a);
    if doc_before(a, b) && doc_before(b, c) && spec_doc_number(a) == spec_doc_number(b)
        && spec_doc_number(b) == spec_doc_number(c) {
        lemma_seq_lt_transitive(a, b, c);
    }
    if a != b {
        lemma_seq_lt_total(a, b);
    }
}

/// `String`'s `<`.
fn chars_lt(a: &[char], b: &[char]) -> (r: bool)
    ensures
        r == seq_lt(a@, b@),
{
    let mut i: usize = 0;
    assert(a@.skip(0) == a@);
    assert(b@.skip(0) == b@);
    while i < a.len() && i < b.len() && a[i] == b[i]
        invariant
            i <= a.len(),
            i <= b.len(),
            seq_lt(a@, b@) == seq_lt(a@.skip(i as int), b@.skip(i as int)),
        decreases a.len() - i,
    {
        assert(a@.skip(i as int).drop_first() == a@.skip(i + 1));
        assert(b@.skip(i as int).drop_first() == b@.skip(i + 1));
        i = i + 1;
    }
    let ghost sa = a@.skip(i as int);
    let ghost sb = b@.skip(i as int);
    assert(sa.len() == a.len() - i && sb.len() == b.len() - i);
    if i == a.len() {
        i < b.len()
    } else if i == b.len() {
        false
    } else {
        assert(sa[0] == a@[i as int] && sb[0] == b@[i as int]);
        (a[i] as u32) < (b[i] as u32)
    }
}

/// `String`'s `==`.
fn chars_eq(a: &[char], b: &[char]) -> (r: bool)
    ensures
        r == (a@ == b@),
{
    if a.len() != b.len() {
        return false;
    }
    let mut i: usize = 0;
    while i < a.len()
        invariant
            a.len() == b.len(),
            i <= a.len(),
            forall|j: int| 0 <= j < i ==> a@[j] == b@[j],
        decreases a.len() - i,
    {
        if a[i] != b[i] {
            return false;
        }
        i = i + 1;
    }
    assert(a@ == b@);
    true
}

/// The group of a key, computed.
fn key_doc_of(key: &[char]) -> (r: Option<Vec<char>>)
    ensures
        opt_chars_view(r) == key_doc(key@),
{
    let colon = vec![':'];
    assert(colon@ == seq![':']);
    match find_from(key, &colon, 0) {
        Some(i) => {
            let d = slice_of(key, 0, i);
            if d.len() >= 3 && d[0] == 'D' && d[1] == 'o' && d[2] == 'c' {
                assert(d@.take(3) == seq!['D', 'o', 'c']);
                Some(d)
            } else {
                proof {
                    if has_prefix(d@, seq!['D', 'o', 'c']) {
                        assert(d@.take(3)[0] == 'D');
                        assert(d@.take(3)[1] == 'o');
                        assert(d@.take(3)[2] == 'c');
                    }
                }
                None
            }
        },
        None => None,
    }
}

/// The view of an optional character vector.
pub open spec fn opt_chars_view(o: Option<Vec<char>>) -> Option<Seq<char>> {
    match o {
        Some(v) => Some(v@),
        None => None,
    }
}

/// Whether some entry's key belongs to group `doc`.
pub open spec fn is_entry_doc(entries: Seq<JsonEntry>, doc: Seq<char>) -> bool {
    exists|i: int| 0 <= i < entries.len() && key_doc(#[trigger] entries[i].key@) == Some(doc)
}

/// Whether one of the first `k` entries' keys belongs to group `doc`.
spec fn doc_in_prefix(entries: Seq<JsonEntry>, k: int, doc: Seq<char>) -> bool {
    exists|i: int| 0 <= i < k && key_doc(#[trigger] entries[i].key@) == Some(doc)
}

proof fn lemma_entry_index_unique(entries: Seq<JsonEntry>, key: Seq<char>, i: int)
    requires
        distinct_keys(entries),
        0 <= i < entries.len(),
        entries[i].key@ == key,
    ensures
        entry_index(entries, key) == Some(i),
{
    assert(exists|j: int| 0 <= j < entries.len() && #[trigger] entries[j].key@ == key);
    let j = choose|j: int| 0 <= j < entries.len() && #[trigger] entries[j].key@ == key;
    if j != i {
        assert(entries[i].key@ != entries[j].key@);
    }
}

/// The characters of every key.
fn key_chars(entries: &Vec<JsonEntry>) -> (keys: Vec<Vec<char>>)
    ensures
        keys@.len() == entries@.len(),
        forall|i: int| 0 <= i < keys@.len() ==> #[trigger] keys@[i]@ == entries@[i].key@,
{
    let mut keys: Vec<Vec<char>> = Vec::new();
    let mut i: usize = 0;
    while i < entries.len()
        invariant
            i <= entries@.len(),
            keys@.len() == i,
            forall|j: int| 0 <= j < i ==> #[trigger] keys@[j]@ == entries@[j].key@,
        decreases entries.len() - i,
    {
        keys.push(chars_of(entries[i].key.as_str()));
        i = i + 1;
    }
    keys
}

/// The entry whose key is `target`.
fn find_key(keys: &Vec<Vec<char>>, target: &[char]) -> (r: Option<usize>)
    ensures
        r is None ==> forall|i: int| 0 <= i < keys@.len() ==> #[trigger] keys@[i]@ != target@,
        r matches Some(i) ==> i < keys@.len() && keys@[i as int]@ == target@,
{
    let mut i: usize = 0;
    while i < keys.len()
        invariant
            i <= keys@.len(),
            forall|j: int| 0 <= j < i ==> #[trigger] keys@[j]@ != target@,
        decreases keys.len() - i,
    {
        if chars_eq(&keys[i], target) {
            return Some(i);
        }
        i = i + 1;
    }
    None
}

/// `doc` + `:` + `name`.
fn field_key_chars(doc: &[char], name: &[char]) -> (r: Vec<char>)
    ensures
        r@ == field_key(doc@, name@),
{
    let mut r = slice_of(doc, 0, doc.len());
    assert(r@ == doc@);
    r.push(':');
    let mut i: usize = 0;
    while i < name.len()
        invariant
            i <= name.len(),
            r@ == doc@ + seq![':'] + name@.take(i as int),
        decreases name.len() - i,
    {
        r.push(name[i]);
        assert(name@.take(i + 1) == name@.take(i as int).push(name@[i as int]));
        i = i + 1;
    }
    assert(name@.take(name.len() as int) == name@);
    r
}

/// The string under key `target`.
fn text_field(entries: &Vec<JsonEntry>, keys: &Vec<Vec<char>>, target: &[char]) -> (r: Option<
    String,
>)
    requires
        distinct_keys(entries@),
        keys@.len() == entries@.len(),
        forall|i: int| 0 <= i < keys@.len() ==> #[trigger] keys@[i]@ == entries@[i].key@,
    ensures
        opt_string_view(r) == text_at(entries@, target@),
{
    match find_key(keys, target) {
        None => {
            assert(!exists|i: int| 0 <= i < entries@.len() && #[trigger] entries@[i].key@ == target@)
                by {
                assert forall|i: int| 0 <= i < entries@.len() implies #[trigger] entries@[i].key@
                    != target@ by {
                    assert(keys@[i]@ != target@);
                }
            }
            None
        },
        Some(i) => {
            proof {
                lemma_entry_index_unique(entries@, target@, i as int);
            }
            match &entries[i].value {
                FieldValue::Text(t) => Some(t.clone()),
                _ => None,
            }
        },
    }
}

/// The entry holding a number under key `target`.
fn number_field(entries: &Vec<JsonEntry>, keys: &Vec<Vec<char>>, target: &[char]) -> (r: Option<
    usize,
>)
    requires
        distinct_keys(entries@),
        keys@.len() == entries@.len(),
        forall|i: int| 0 <= i < keys@.len() ==> #[trigger] keys@[i]@ == entries@[i].key@,
    ensures
        opt_usize_int(r) == number_at(entries@, target@),
{
    match find_key(keys, target) {
        None => {
            assert(!exists|i: int| 0 <= i < entries@.len() && #[trigger] entries@[i].key@ == target@)
                by {
                assert forall|i: int| 0 <= i < entries@.len() implies #[trigger] entries@[i].key@
                    != target@ by {
                    assert(keys@[i]@ != target@);
                }
            }
            None
        },
        Some(i) => {
            proof {
                lemma_entry_index_unique(entries@, target@, i as int);
            }
            match &entries[i].value {
                FieldValue::Number => Some(i),
                _ => None,
            }
        },
    }
}

/// The plan of group `doc`.
fn doc_plan(entries: &Vec<JsonEntry>, keys: &Vec<Vec<char>>, doc: &[char]) -> (p: DocPlan)
    requires
        distinct_keys(entries@),
        keys@.len() == entries@.len(),
        forall|i: int| 0 <= i < keys@.len() ==> #[trigger] keys@[i]@ == entries@[i].key@,
    ensures
        p.doc_id@ == doc@,
        doc_plan_matches(entries@, p),
{
    let n_lat = vec!['G', 'P', 'S', 'L', 'a', 't', 'i', 't', 'u', 'd', 'e'];
    let n_lon = vec!['G', 'P', 'S', 'L', 'o', 'n', 'g', 'i', 't', 'u', 'd', 'e'];
    let n_time = vec!['G', 'P', 'S', 'D', 'a', 't', 'e', 'T', 'i', 'm', 'e'];
    let n_speed = vec!['G', 'P', 'S', 'S', 'p', 'e', 'e', 'd'];
    let n_ref = vec!['G', 'P', 'S', 'S', 'p', 'e', 'e', 'd', 'R', 'e', 'f'];
    let n_track = vec!['G', 'P', 'S', 'T', 'r', 'a', 'c', 'k'];
    let n_accel = vec!['A', 'c', 'c', 'e', 'l', 'e', 'r', 'o', 'm', 'e', 't', 'e', 'r'];
    assert(n_lat@ == name_latitude());
    assert(n_lon@ == name_longitude());
    assert(n_time@ == name_datetime());
    assert(n_speed@ == name_speed());
    assert(n_ref@ == name_speed_ref());
    assert(n_track@ == name_track());
    assert(n_accel@ == name_accelerometer());

    let accel = text_field(entries, keys, &field_key_chars(doc, &n_accel));
    let lat = text_field(entries, keys, &field_key_chars(doc, &n_lat));
    let lon = text_field(entries, keys, &field_key_chars(doc, &n_lon));
    let time = text_field(entries, keys, &field_key_chars(doc, &n_time));
    let gps = match (lat, lon, time) {
        (Some(latitude), Some(longitude), Some(timestamp)) => {
            let speed_ref = match text_field(entries, keys, &field_key_chars(doc, &n_ref)) {
                Some(r) => r,
                None => match text_field(entries, keys, &n_ref) {
                    Some(r) => r,
                    None => {
                        let k = vec!['K'];
                        assert(k@ == seq!['K']);
                        string_of(&k)
                    },
                },
            };
            let unit = speed_unit(speed_ref.as_str());
            let speed_entry = number_field(entries, keys, &field_key_chars(doc, &n_speed));
            let heading_entry = number_field(entries, keys, &field_key_chars(doc, &n_track));
            Some(GpsPlan { latitude, longitude, timestamp, speed_entry, heading_entry, unit })
        },
        _ => None,
    };
    DocPlan { doc_id: string_of(doc), gps, accel }
}

/// Reads the `Doc` groups out of ExifTool's flat JSON object (given as its
/// entries) and plans each group's samples, in play order.
pub fn plan_telemetry(entries: &Vec<JsonEntry>) -> (plans: Vec<DocPlan>)
    requires
        distinct_keys(entries@),
    ensures
        forall|m: int| 0 <= m < plans@.len() ==> doc_plan_matches(entries@, #[trigger] plans@[m]),
        forall|m: int| 0 <= m < plans@.len() ==> is_entry_doc(entries@, #[trigger] plans@[m].doc_id@),
        forall|i: int|
            0 <= i < entries@.len() && (#[trigger] key_doc(entries@[i].key@)) is Some ==> exists|m: int|
                0 <= m < plans@.len() && #[trigger] plans@[m].doc_id@ == key_doc(entries@[i].key@)->0,
        forall|m1: int, m2: int|
            0 <= m1 < m2 < plans@.len() ==> doc_before(
                #[trigger] plans@[m1].doc_id@,
                #[trigger] plans@[m2].doc_id@,
            ),
        forall|m1: int, m2: int|
            0 <= m1 < m2 < plans@.len() ==> spec_doc_number(#[trigger] plans@[m1].doc_id@)
                <= spec_doc_number(#[trigger] plans@[m2].doc_id@),
{
    let keys = key_chars(entries);
    let mut ids: Vec<Vec<char>> = Vec::new();
    let mut nums: Vec<u32> = Vec::new();
    let ghost mut idv: Seq<Seq<char>> = seq![];
    let mut k: usize = 0;
    while k < keys.len()
        invariant
            k <= keys@.len() == entries@.len(),
            forall|i: int| 0 <= i < keys@.len() ==> #[trigger] keys@[i]@ == entries@[i].key@,
            ids@.len() == idv.len() == nums@.len(),
            forall|m: int| 0 <= m < idv.len() ==> #[trigger] ids@[m]@ == idv[m],
            forall|m: int| 0 <= m < idv.len() ==> #[trigger] nums@[m] == spec_doc_number(idv[m]),
            forall|m1: int, m2: int|
                0 <= m1 < m2 < idv.len() ==> doc_before(#[trigger] idv[m1], #[trigger] idv[m2]),
            forall|m: int| 0 <= m < idv.len() ==> doc_in_prefix(entries@, k as int, #[trigger] idv[m]),
            forall|i: int|
                0 <= i < k && (#[trigger] key_doc(entries@[i].key@)) is Some ==> idv.contains(
                    key_doc(entries@[i].key@)->0,
                ),
        decreases keys.len() - k,
    {
        let ghost old_idv = idv;
        match key_doc_of(&keys[k]) {
            None => {},
            Some(d) => {
                let mut found = false;
                let mut m: usize = 0;
                while m < ids.len()
                    invariant
                        m <= ids@.len() == idv.len(),
                        forall|j: int| 0 <= j < idv.len() ==> #[trigger] ids@[j]@ == idv[j],
                        found ==> idv.contains(d@),
                        !found ==> forall|j: int| 0 <= j < m ==> #[trigger] idv[j] != d@,
                    decreases ids.len() - m,
                {
                    if chars_eq(&ids[m], &d) {
                        found = true;
                        assert(idv[m as int] == d@);
                    }
                    m = m + 1;
                }
                if !found {
                    let num = doc_number(&d);
                    let mut p: usize = 0;
                    while p < ids.len() && !(num < nums[p] || (num == nums[p] && chars_lt(
                        &d,
                        &ids[p],
                    )))
                        invariant
                            p <= ids@.len() == idv.len() == nums@.len(),
                            num == spec_doc_number(d@),
                            forall|j: int| 0 <= j < idv.len() ==> #[trigger] ids@[j]@ == idv[j],
                            forall|j: int| 0 <= j < idv.len() ==> #[trigger] nums@[j] == spec_doc_number(idv[j]),
                            forall|j: int| 0 <= j < p ==> !doc_before(d@, #[trigger] idv[j]),
                        decreases ids.len() - p,
                    {
                        p = p + 1;
                    }
                    proof {
                        if p < idv.len() {
                            assert(doc_before(d@, idv[p as int]));
                        }
                    }
                    let ghost dview = d@;
                    ids.insert(p, d);
                    nums.insert(p, num);
                    proof {
                        let dv = ids@[p as int]@;
                        assert(dv == dview);
                        idv = old_idv.insert(p as int, dv);
                        assert(idv[p as int] == dview);
                        assert(idv.contains(dview));
                        assert forall|m1: int, m2: int|
                            0 <= m1 < m2 < idv.len() implies doc_before(
                            #[trigger] idv[m1],
                            #[trigger] idv[m2],
                        ) by {
                            if m1 < p && m2 == p {
                                law_doc_order_is_strict_total(old_idv[m1], dv, dv);
                                assert(old_idv[m1] != dv);
                            } else if m1 < p && m2 > p {
                                law_doc_order_is_strict_total(old_idv[m1], dv, old_idv[m2 - 1]);
                                assert(old_idv[m1] != dv);
                                if m2 - 1 > p {
                                    law_doc_order_is_strict_total(dv, old_idv[p as int], old_idv[m2 - 1]);
                                }
                            } else if m1 == p && m2 > p {
                                if m2 - 1 > p {
                                    law_doc_order_is_strict_total(dv, old_idv[p as int], old_idv[m2 - 1]);
                                }
                            } else if m1 > p {
                                assert(idv[m1] == old_idv[m1 - 1] && idv[m2] == old_idv[m2 - 1]);
                            } else {
                                assert(idv[m1] == old_idv[m1] && idv[m2] == old_idv[m2 - 1]
                                    || idv[m2] == old_idv[m2]);
                            }
                        }
                    }
                }
            },
        }
        proof {
            let kd = key_doc(entries@[k as int].key@);
            assert(keys@[k as int]@ == entries@[k as int].key@);
            assert forall|m: int| 0 <= m < idv.len() implies doc_in_prefix(
                entries@,
                k + 1,
                #[trigger] idv[m],
            ) by {
                if idv[m] == kd->0 && kd is Some {
                    assert(key_doc(entries@[k as int].key@) == Some(idv[m]));
                } else {
                    let j = if m < old_idv.len() && idv[m] == old_idv[m] {
                        m
                    } else if m > 0 && m - 1 < old_idv.len() && idv[m] == old_idv[m - 1] {
                        m - 1
                    } else {
                        m
                    };
                    assert(doc_in_prefix(entries@, k as int, old_idv[j]));
                }
            }
            assert forall|i: int|
                0 <= i < k + 1 && (#[trigger] key_doc(entries@[i].key@)) is Some implies idv.contains(
                key_doc(entries@[i].key@)->0,
            ) by {
                if i < k {
                    let x = key_doc(entries@[i].key@)->0;
                    assert(old_idv.contains(x));
                    let w = choose|w: int| 0 <= w < old_idv.len() && old_idv[w] == x;
                    if idv.len() == old_idv.len() {
                        assert(idv[w] == x);
                    } else {
                        assert(idv[w] == x || idv[w + 1] == x);
                    }
                } else {
                    assert(idv.contains(kd->0));
                }
            }
        }
        k = k + 1;
    }
    let mut plans: Vec<DocPlan> = Vec::new();
    let mut m: usize = 0;
    while m < ids.len()
        invariant
            m <= ids@.len() == idv.len(),
            keys@.len() == entries@.len(),
            distinct_keys(entries@),
            forall|i: int| 0 <= i < keys@.len() ==> #[trigger] keys@[i]@ == entries@[i].key@,
            forall|j: int| 0 <= j < idv.len() ==> #[trigger] ids@[j]@ == idv[j],
            plans@.len() == m,
            forall|j: int| 0 <= j < m ==> #[trigger] plans@[j].doc_id@ == idv[j],
            forall|j: int| 0 <= j < m ==> doc_plan_matches(entries@, #[trigger] plans@[j]),
        decreases ids.len() - m,
    {
        plans.push(doc_plan(entries, &keys, &ids[m]));
        m = m + 1;
    }
    proof {
        assert forall|j: int| 0 <= j < plans@.len() implies is_entry_doc(
            entries@,
            #[trigger] plans@[j].doc_id@,
        ) by {
            assert(doc_in_prefix(entries@, entries@.len() as int, idv[j]));
        }
        assert forall|m1: int, m2: int|
            0 <= m1 < m2 < plans@.len() implies spec_doc_number(#[trigger] plans@[m1].doc_id@)
            <= spec_doc_number(#[trigger] plans@[m2].doc_id@) by {
            assert(doc_before(idv[m1], idv[m2]));
        }
        assert forall|i: int|
            0 <= i < entries@.len() && (#[trigger] key_doc(entries@[i].key@)) is Some implies exists|
            j: int,
        | 0 <= j < plans@.len() && #[trigger] plans@[j].doc_id@ == key_doc(entries@[i].key@)->0 by {
            let x = key_doc(entries@[i].key@)->0;
            assert(idv.contains(x));
            let w = choose|w: int| 0 <= w < idv.len() && idv[w] == x;
            assert(plans@[w].doc_id@ == x);
        }
    }
    plans
}

} // verus!
