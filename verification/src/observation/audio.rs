//! The PipeWire session-audio snapshot that the WirePlumber helper prints,
//! and the output-node resources that name its sinks.
use vstd::prelude::*;
use crate::num::{all_digits, digits_value, is_digit};
use crate::observation::error::ProviderError;
use crate::text::{any_control, chars_eq, chars_of, has_control, has_prefix, lines, lit, slice_chars, split, split_lines, split_on, starts_with, string_of, utf8_bytes};

verus! {

pub const PIPEWIRE_SESSION_PROVIDER: &'static str = "pipewire";
pub const PIPEWIRE_SESSION_CAPABILITY: &'static str = "audio.session.observe";
pub const PIPEWIRE_OUTPUT_RESOURCE_PREFIX: &'static str = "audio:session:output:";
pub const PIPEWIRE_DEFAULT_OUTPUT_RESOURCE: &'static str = "audio:session:default-output";
pub const WIREPLUMBER_EXECUTABLE_PATH: &'static str = "/usr/bin/wpexec";
pub const LINURA_SESSION_AUDIO_HELPER_PATH: &'static str = "/usr/lib/linura/linura-session-audio.lua";

/// Most sinks a snapshot may report.
pub const MAX_AUDIO_SINKS: usize = 256;

/// One audio sink of the current session.
#[derive(Debug, PartialEq, Eq)]
pub struct PipeWireSink {
    pub node_id: u32,
    pub object_serial: u64,
    pub node_name: String,
    pub is_default: bool,
    pub volume_percent: u64,
    pub muted: bool,
}

/// The abstract content of a sink.
pub struct SinkView {
    pub node_id: u32,
    pub object_serial: u64,
    pub node_name: Seq<char>,
    pub is_default: bool,
    pub volume_percent: u64,
    pub muted: bool,
}

impl View for PipeWireSink {
    type V = SinkView;

    open spec fn view(&self) -> SinkView {
        SinkView {
            node_id: self.node_id,
            object_serial: self.object_serial,
            node_name: self.node_name@,
            is_default: self.is_default,
            volume_percent: self.volume_percent,
            muted: self.muted,
        }
    }
}

impl Clone for PipeWireSink {
    fn clone(&self) -> (r: Self)
        ensures
            r@ == self@,
    {
        PipeWireSink {
            node_id: self.node_id,
            object_serial: self.object_serial,
            node_name: self.node_name.clone(),
            is_default: self.is_default,
            volume_percent: self.volume_percent,
            muted: self.muted,
        }
    }
}

pub open spec fn sink_views(s: Seq<PipeWireSink>) -> Seq<SinkView> {
    s.map_values(|k: PipeWireSink| k@)
}

/// A canonical unsigned integer: decimal digits without sign or leading
/// zero, at most `u64::MAX`.
pub open spec fn canonical_u64(s: Seq<char>) -> Option<u64> {
    if s.len() > 0 && !(s.len() > 1 && s[0] == '0') && all_digits(s) && digits_value(s)
        <= 0xffff_ffff_ffff_ffffnat {
        Some(digits_value(s) as u64)
    } else {
        None
    }
}

/// A canonical node id: a canonical integer below `u32::MAX`, which is the
/// reserved invalid id.
pub open spec fn canonical_node_id(s: Seq<char>) -> Option<u32> {
    match canonical_u64(s) {
        Some(v) => if v < 0xffff_ffffu64 {
            Some(v as u32)
        } else {
            None
        },
        None => None,
    }
}

/// `0` or `1`.
pub open spec fn binary_flag(s: Seq<char>) -> Option<bool> {
    if s == seq!['0'] {
        Some(false)
    } else if s == seq!['1'] {
        Some(true)
    } else {
        None
    }
}

/// A node name: non-empty, at most 1024 bytes, no control characters.
pub open spec fn valid_node_name(s: Seq<char>) -> bool {
    s.len() > 0 && vstd::utf8::encode_utf8(s).len() <= 1024 && !any_control(s)
}

/// One snapshot record: seven tab-separated fields, `sink`, then a
/// canonical node id, object serial, name, default marker, volume of at most
/// 1000 percent, and mute marker.
pub open spec fn sink_record(line: Seq<char>) -> Option<SinkView> {
    let f = split(line, '\t');
    if f.len() == 7 && f[0] == seq!['s', 'i', 'n', 'k'] {
        match (canonical_node_id(f[1]), canonical_u64(f[2]), binary_flag(f[4]), canonical_u64(f[5]),
            binary_flag(f[6])) {
            (Some(node_id), Some(serial), Some(is_default), Some(volume), Some(muted)) => {
                if valid_node_name(f[3]) && volume <= 1000 {
                    Some(SinkView {
                        node_id,
                        object_serial: serial,
                        node_name: f[3],
                        is_default,
                        volume_percent: volume,
                        muted,
                    })
                } else {
                    None
                }
            },
            _ => None,
        }
    } else {
        None
    }
}

/// A sink may follow `prev`: its node id is above the last one, its serial
/// is new, and it is not a second default.
pub open spec fn sink_admissible(prev: Seq<SinkView>, s: SinkView) -> bool {
    &&& (prev.len() == 0 || prev.last().node_id < s.node_id)
    &&& forall|k: int| 0 <= k < prev.len() ==> #[trigger] prev[k].object_serial != s.object_serial
    &&& s.is_default ==> forall|k: int| 0 <= k < prev.len() ==> !(#[trigger] prev[k]).is_default
}

/// The non-empty lines among `ls`, in order.
pub open spec fn nonempty_lines(ls: Seq<Seq<char>>) -> Seq<Seq<char>>
    decreases ls.len(),
{
    if ls.len() == 0 {
        seq![]
    } else if ls.last().len() > 0 {
        nonempty_lines(ls.drop_last()).push(ls.last())
    } else {
        nonempty_lines(ls.drop_last())
    }
}

/// The sinks that the records describe, accepted one after the other; none
/// when a record is malformed or inadmissible or there are too many.
pub open spec fn snapshot_sinks(recs: Seq<Seq<char>>) -> Option<Seq<SinkView>>
    decreases recs.len(),
{
    if recs.len() == 0 {
        Some(seq![])
    } else {
        match snapshot_sinks(recs.drop_last()) {
            None => None,
            Some(prev) => if prev.len() >= MAX_AUDIO_SINKS {
                None
            } else {
                match sink_record(recs.last()) {
                    Some(s) => if sink_admissible(prev, s) {
                        Some(prev.push(s))
                    } else {
                        None
                    },
                    None => None,
                }
            },
        }
    }
}

pub open spec fn protocol_header() -> Seq<char> {
    seq!['p', 'r', 'o', 't', 'o', 'c', 'o', 'l', '\t', '1']
}

/// The sinks of a helper snapshot: the `protocol\t1` header line, then one
/// record per non-empty line.
pub open spec fn wireplumber_snapshot(text: Seq<char>) -> Option<Seq<SinkView>> {
    let ls = lines(text);
    if ls.len() > 0 && ls[0] == protocol_header() {
        snapshot_sinks(nonempty_lines(ls.skip(1)))
    } else {
        None
    }
}

/// Every accepted snapshot is canonical: node ids strictly ascend, object
/// serials are unique, at most one sink is the default, volumes are at most
/// 1000 percent, node names are valid, and there are at most 256 sinks.
pub proof fn law_snapshot_canonical(recs: Seq<Seq<char>>)
    requires
        snapshot_sinks(recs) is Some,
    ensures
        ({
            let s = snapshot_sinks(recs).unwrap();
            &&& s.len() <= MAX_AUDIO_SINKS
            &&& forall|i: int, j: int| 0 <= i < j < s.len() ==> #[trigger] s[i].node_id < #[trigger] s[j].node_id
            &&& forall|i: int, j: int| 0 <= i < j < s.len() ==> #[trigger] s[i].object_serial != #[trigger] s[j].object_serial
            &&& forall|i: int, j: int| 0 <= i < j < s.len() ==> !(#[trigger] s[i].is_default && #[trigger] s[j].is_default)
            &&& forall|i: int| 0 <= i < s.len() ==> #[trigger] s[i].volume_percent <= 1000
            &&& forall|i: int| 0 <= i < s.len() ==> valid_node_name(#[trigger] s[i].node_name)
        }),
    decreases recs.len(),
{
    if recs.len() > 0 {
        law_snapshot_canonical(recs.drop_last());
        let prev = snapshot_sinks(recs.drop_last()).unwrap();
        let s = snapshot_sinks(recs).unwrap();
        assert(s == prev.push(sink_record(recs.last()).unwrap()));
        assert forall|i: int, j: int| 0 <= i < j < s.len() implies #[trigger] s[i].node_id < #[trigger] s[j].node_id by {
            if j == s.len() - 1 && i < j - 1 {
                assert(prev[i].node_id < prev[prev.len() - 1].node_id);
            }
        }
        assert forall|i: int, j: int| 0 <= i < j < s.len() implies #[trigger] s[i].object_serial
            != #[trigger] s[j].object_serial by {
            if j == s.len() - 1 {
                assert(prev[i].object_serial != s[j].object_serial);
            }
        }
        assert forall|i: int, j: int| 0 <= i < j < s.len() implies !(#[trigger] s[i].is_default
            && #[trigger] s[j].is_default) by {
            if j == s.len() - 1 && s[j].is_default {
                assert(!prev[i].is_default);
            }
        }
    }
}

fn is_ascii_digit(c: char) -> (r: bool)
    ensures
        r == is_digit(c),
{
    '0' <= c && c <= '9'
}

/// Parses a canonical unsigned integer (see [`canonical_u64`]).
pub fn parse_canonical_u64(value: &[char]) -> (r: Result<u64, ProviderError>)
    ensures
        match canonical_u64(value@) {
            Some(v) => r == Ok::<u64, ProviderError>(v),
            None => r matches Err(e) && e is InvalidState,
        },
{
    if value.len() == 0 || (value.len() > 1 && value[0] == '0') {
        return Err(ProviderError::InvalidState("WirePlumber value is not a canonical unsigned integer".to_string()));
    }
    let mut i: usize = 0;
    while i < value.len()
        invariant
            i <= value@.len(),
            forall|j: int| 0 <= j < i ==> is_digit(#[trigger] value@[j]),
        decreases value@.len() - i,
    {
        if !is_ascii_digit(value[i]) {
            return Err(ProviderError::InvalidState("WirePlumber value is not a canonical unsigned integer".to_string()));
        }
        i = i + 1;
    }
    match crate::num::parse_decimal(value, 0xffff_ffff_ffff_ffffu64) {
        Some(v) => {
            assert(value@[0] != '+');
            Ok(v)
        },
        None => {
            assert(value@[0] != '+');
            Err(ProviderError::InvalidState("WirePlumber value exceeds the u64 range".to_string()))
        },
    }
}

/// Parses a canonical node id (see [`canonical_node_id`]).
pub fn parse_canonical_node_id(value: &[char]) -> (r: Result<u32, ProviderError>)
    ensures
        match canonical_node_id(value@) {
            Some(v) => r == Ok::<u32, ProviderError>(v),
            None => r matches Err(e) && e is InvalidState,
        },
{
    let v = parse_canonical_u64(value)?;
    if v >= 0xffff_ffffu64 {
        return Err(ProviderError::InvalidState("WirePlumber node id is out of range or reserved".to_string()));
    }
    Ok(v as u32)
}

/// Parses a `0`/`1` marker.
pub fn parse_binary_flag(value: &[char]) -> (r: Result<bool, ProviderError>)
    ensures
        match binary_flag(value@) {
            Some(b) => r == Ok::<bool, ProviderError>(b),
            None => r matches Err(e) && e is InvalidState,
        },
{
    if value.len() == 1 && value[0] == '0' {
        assert(value@ =~= seq!['0']);
        return Ok(false);
    }
    if value.len() == 1 && value[0] == '1' {
        assert(value@ =~= seq!['1']);
        return Ok(true);
    }
    Err(ProviderError::InvalidState("WirePlumber marker is not canonical".to_string()))
}

fn parse_sink_record(line: &[char]) -> (r: Result<PipeWireSink, ProviderError>)
    ensures
        match sink_record(line@) {
            Some(s) => r matches Ok(k) && k@ == s,
            None => r matches Err(e) && e is InvalidState,
        },
{
    let fields = split_on(line, '\t');
    let sink = lit("sink");
    proof {
        reveal_strlit("sink");
        assert(sink@ =~= seq!['s', 'i', 'n', 'k']);
    }
    if fields.len() != 7 || !chars_eq(&fields[0], &sink) {
        return Err(ProviderError::InvalidState("WirePlumber audio-sink snapshot has an invalid record shape".to_string()));
    }
    let node_id = parse_canonical_node_id(&fields[1])?;
    let object_serial = parse_canonical_u64(&fields[2])?;
    let name = &fields[3];
    if name.len() == 0 || utf8_bytes(name).len() > 1024 || has_control(name) {
        return Err(ProviderError::InvalidState("WirePlumber audio sink has an invalid node name".to_string()));
    }
    let is_default = parse_binary_flag(&fields[4])?;
    let volume_percent = parse_canonical_u64(&fields[5])?;
    if volume_percent > 1000 {
        return Err(ProviderError::InvalidState("WirePlumber volume exceeds the bounded 1000% observation ceiling".to_string()));
    }
    let muted = parse_binary_flag(&fields[6])?;
    Ok(PipeWireSink { node_id, object_serial, node_name: string_of(name), is_default, volume_percent, muted })
}

/// What the snapshot parser accepts is canonical: the output begins with
/// the protocol line, node ids strictly ascend, object serials are unique,
/// at most one sink is the default, volumes are at most 1000 percent, node
/// names are valid, and there are at most 256 sinks.
/// [`parse_wireplumber_sink_snapshot`] returns
/// `Ok` exactly on such outputs, with these sinks.
pub proof fn law_parsed_snapshot_canonical(text: Seq<char>)
    requires
        wireplumber_snapshot(text) is Some,
    ensures
        lines(text).len() > 0 && lines(text)[0] == protocol_header(),
        ({
            let s = wireplumber_snapshot(text).unwrap();
            &&& s.len() <= MAX_AUDIO_SINKS
            &&& forall|i: int, j: int| 0 <= i < j < s.len() ==> #[trigger] s[i].node_id < #[trigger] s[j].node_id
            &&& forall|i: int, j: int| 0 <= i < j < s.len() ==> #[trigger] s[i].object_serial != #[trigger] s[j].object_serial
            &&& forall|i: int, j: int| 0 <= i < j < s.len() ==> !(#[trigger] s[i].is_default && #[trigger] s[j].is_default)
            &&& forall|i: int| 0 <= i < s.len() ==> #[trigger] s[i].volume_percent <= 1000
            &&& forall|i: int| 0 <= i < s.len() ==> valid_node_name(#[trigger] s[i].node_name)
        }),
{
    law_snapshot_canonical(nonempty_lines(lines(text).skip(1)));
}

/// Parses the helper's session-audio snapshot (see [`wireplumber_snapshot`]).
pub fn parse_wireplumber_sink_snapshot(output: &str) -> (r: Result<Vec<PipeWireSink>, ProviderError>)
    ensures
        match wireplumber_snapshot(output@) {
            Some(s) => r matches Ok(v) && sink_views(v@) == s,
            None => r matches Err(e) && e is InvalidState,
        },
{
    let chars = chars_of(output);
    let ls = split_lines(&chars);
    let header = lit("protocol\t1");
    proof {
        reveal_strlit("protocol\t1");
        assert(header@ =~= protocol_header());
    }
    if ls.len() == 0 || !chars_eq(&ls[0], &header) {
        return Err(ProviderError::InvalidState("WirePlumber helper protocol header is invalid".to_string()));
    }
    let ghost all = lines(output@);
    let ghost tail = all.skip(1);
    let mut sinks: Vec<PipeWireSink> = Vec::new();
    let mut last_node_id: Option<u32> = None;
    let mut has_default = false;
    let mut i: usize = 1;
    assert(tail.take(0) =~= Seq::<Seq<char>>::empty());
    while i < ls.len()
        invariant
            1 <= i <= ls@.len(),
            all == lines(output@),
            tail == all.skip(1),
            ls@.len() == all.len(),
            forall|k: int| 0 <= k < ls@.len() ==> #[trigger] ls@[k]@ == all[k],
            wireplumber_snapshot(output@) == snapshot_sinks(nonempty_lines(tail)),
            snapshot_sinks(nonempty_lines(tail.take(i - 1))) == Some(sink_views(sinks@)),
            last_node_id == (if sinks@.len() == 0 { None::<u32> } else { Some(sinks@.last().node_id) }),
            has_default == exists|k: int| 0 <= k < sinks@.len() && #[trigger] sinks@[k].is_default,
        decreases ls@.len() - i,
    {
        let ghost before = tail.take(i - 1);
        proof {
            assert(tail[i - 1] == all[i as int]);
            lemma_nonempty_step(tail, i - 1);
            let x = nonempty_lines(before);
            assert(x.push(all[i as int]).drop_last() =~= x);
        }
        if ls[i].len() == 0 {
            i = i + 1;
            continue;
        }
        let ghost prev = sink_views(sinks@);
        if sinks.len() >= MAX_AUDIO_SINKS {
            proof {
                lemma_snapshot_prefix_fails(tail, i as int - 1);
            }
            return Err(ProviderError::InvalidState("WirePlumber audio-sink snapshot exceeds the bounded sink ceiling".to_string()));
        }
        let sink = match parse_sink_record(&ls[i]) {
            Ok(s) => s,
            Err(e) => {
                proof {
                    lemma_snapshot_prefix_fails(tail, i as int - 1);
                }
                return Err(e);
            },
        };
        let mut ok = match last_node_id {
            Some(previous) => previous < sink.node_id,
            None => true,
        };
        let mut k: usize = 0;
        while k < sinks.len()
            invariant
                k <= sinks@.len(),
                ok ==> forall|j: int| 0 <= j < k ==> #[trigger] sinks@[j].object_serial != sink.object_serial,
                !ok ==> !sink_admissible(sink_views(sinks@), sink@),
                ok ==> (sinks@.len() == 0 || sinks@.last().node_id < sink.node_id),
            decreases sinks@.len() - k,
        {
            if sinks[k].object_serial == sink.object_serial {
                proof {
                    assert(sink_views(sinks@)[k as int].object_serial == sink.object_serial);
                }
                ok = false;
            }
            k = k + 1;
        }
        if sink.is_default && has_default {
            proof {
                let j = choose|j: int| 0 <= j < sinks@.len() && #[trigger] sinks@[j].is_default;
                assert(sink_views(sinks@)[j].is_default);
            }
            ok = false;
        }
        proof {
            if ok {
                assert forall|j: int| 0 <= j < prev.len() implies #[trigger] prev[j].object_serial != sink@.object_serial by {
                    assert(prev[j] == sinks@[j]@);
                }
                if sink@.is_default {
                    assert forall|j: int| 0 <= j < prev.len() implies !(#[trigger] prev[j]).is_default by {
                        assert(prev[j] == sinks@[j]@);
                    }
                }
                if prev.len() > 0 {
                    assert(prev.last() == sinks@.last()@);
                }
                assert(sink_admissible(prev, sink@));
            }
        }
        if !ok {
            proof {
                lemma_snapshot_prefix_fails(tail, i as int - 1);
            }
            return Err(ProviderError::InvalidState("WirePlumber audio-sink snapshot is not canonical".to_string()));
        }
        let nid = sink.node_id;
        let dflt = sink.is_default;
        let ghost olds = sinks@;
        sinks.push(sink);
        proof {
            assert(sink_views(sinks@) =~= prev.push(sinks@.last()@));
        }
        last_node_id = Some(nid);
        if dflt {
            has_default = true;
            assert(sinks@[sinks@.len() - 1].is_default);
        } else {
            assert((exists|k: int| 0 <= k < sinks@.len() && #[trigger] sinks@[k].is_default) == (exists|k: int|
                0 <= k < olds.len() && #[trigger] olds[k].is_default)) by {
                if exists|k: int| 0 <= k < sinks@.len() && #[trigger] sinks@[k].is_default {
                    let k = choose|k: int| 0 <= k < sinks@.len() && #[trigger] sinks@[k].is_default;
                    assert(k < olds.len());
                    assert(olds[k] == sinks@[k]);
                }
                if exists|k: int| 0 <= k < olds.len() && #[trigger] olds[k].is_default {
                    let k = choose|k: int| 0 <= k < olds.len() && #[trigger] olds[k].is_default;
                    assert(olds[k] == sinks@[k]);
                }
            }
        }
        i = i + 1;
    }
    proof {
        assert(tail.take(ls@.len() - 1) =~= tail);
    }
    Ok(sinks)
}

/// Once the records read so far are rejected, the whole snapshot is.
proof fn lemma_snapshot_prefix_fails(tail: Seq<Seq<char>>, n: int)
    requires
        0 <= n < tail.len(),
        snapshot_sinks(nonempty_lines(tail.take(n + 1))) is None,
    ensures
        snapshot_sinks(nonempty_lines(tail)) is None,
    decreases tail.len() - n,
{
    if n + 1 < tail.len() {
        lemma_nonempty_step(tail, n + 1);
        let x = nonempty_lines(tail.take(n + 1));
        if tail[n + 1].len() > 0 {
            assert(x.push(tail[n + 1]).drop_last() =~= x);
        }
        lemma_snapshot_prefix_fails(tail, n + 1);
    } else {
        assert(tail.take(n + 1) =~= tail);
    }
}

proof fn lemma_nonempty_step(tail: Seq<Seq<char>>, i: int)
    requires
        0 <= i < tail.len(),
    ensures
        nonempty_lines(tail.take(i + 1)) == if tail[i].len() > 0 {
            nonempty_lines(tail.take(i)).push(tail[i])
        } else {
            nonempty_lines(tail.take(i))
        },
{
    assert(tail.take(i + 1).drop_last() =~= tail.take(i));
    assert(tail.take(i + 1).last() == tail[i]);
}

/// The node id that an exact output-node resource names.
pub open spec fn output_node_id(resource: Seq<char>) -> Option<u32> {
    let prefix = PIPEWIRE_OUTPUT_RESOURCE_PREFIX@;
    if has_prefix(resource, prefix) {
        let raw = resource.skip(prefix.len() as int);
        if raw.len() <= 10 {
            canonical_node_id(raw)
        } else {
            None
        }
    } else {
        None
    }
}

/// The PipeWire node id named by an output-node resource: the exact prefix,
/// then a canonical id of at most ten digits below `u32::MAX`.
pub fn pipewire_output_node_id(resource: &str) -> (r: Result<u32, ProviderError>)
    ensures
        !has_prefix(resource@, PIPEWIRE_OUTPUT_RESOURCE_PREFIX@) ==> (r matches Err(e) && e is Unsupported),
        has_prefix(resource@, PIPEWIRE_OUTPUT_RESOURCE_PREFIX@) ==> match output_node_id(resource@) {
            Some(v) => r == Ok::<u32, ProviderError>(v),
            None => r matches Err(e) && e is InvalidState,
        },
{
    let value = chars_of(resource);
    let prefix = lit(PIPEWIRE_OUTPUT_RESOURCE_PREFIX);
    if !starts_with(&value, &prefix) {
        return Err(ProviderError::Unsupported("resource is not an exact PipeWire output-node resource".to_string()));
    }
    let raw = slice_chars(&value, prefix.len(), value.len());
    if raw.len() > 10 {
        return Err(ProviderError::InvalidState("PipeWire output-node resource has a non-canonical numeric id".to_string()));
    }
    parse_canonical_node_id(&raw)
}

/// The sink a resource selects from a snapshot: the default sink for the
/// default-output resource, else the sink with the named node id.
pub fn resolve_sink(sinks: &[PipeWireSink], resource: &str) -> (r: Result<PipeWireSink, ProviderError>)
    ensures
        resource@ == PIPEWIRE_DEFAULT_OUTPUT_RESOURCE@ ==> match r {
            Ok(s) => exists|i: int| 0 <= i < sinks@.len() && sinks@[i]@ == s@ && sinks@[i].is_default
                && forall|j: int| 0 <= j < i ==> !(#[trigger] sinks@[j]).is_default,
            Err(e) => e is Unavailable && forall|j: int| 0 <= j < sinks@.len() ==> !(#[trigger] sinks@[j]).is_default,
        },
        resource@ != PIPEWIRE_DEFAULT_OUTPUT_RESOURCE@ ==> match output_node_id(resource@) {
            Some(id) => match r {
                Ok(s) => exists|i: int| 0 <= i < sinks@.len() && sinks@[i]@ == s@ && sinks@[i].node_id == id
                    && forall|j: int| 0 <= j < i ==> (#[trigger] sinks@[j]).node_id != id,
                Err(e) => e is Unavailable && forall|j: int| 0 <= j < sinks@.len() ==> (#[trigger] sinks@[j]).node_id != id,
            },
            None => r is Err,
        },
{
    let value = chars_of(resource);
    let default_resource = lit(PIPEWIRE_DEFAULT_OUTPUT_RESOURCE);
    if chars_eq(&value, &default_resource) {
        let mut i: usize = 0;
        while i < sinks.len()
            invariant
                i <= sinks@.len(),
                resource@ == PIPEWIRE_DEFAULT_OUTPUT_RESOURCE@,
                forall|j: int| 0 <= j < i ==> !(#[trigger] sinks@[j]).is_default,
            decreases sinks@.len() - i,
        {
            if sinks[i].is_default {
                let s = sinks[i].clone();
                assert(sinks@[i as int]@ == s@ && sinks@[i as int].is_default);
                return Ok(s);
            }
            i = i + 1;
        }
        return Err(ProviderError::Unavailable("PipeWire has no current default audio sink".to_string()));
    }
    let node_id = pipewire_output_node_id(resource)?;
    let mut i: usize = 0;
    while i < sinks.len()
        invariant
            i <= sinks@.len(),
            resource@ != PIPEWIRE_DEFAULT_OUTPUT_RESOURCE@,
            output_node_id(resource@) == Some(node_id),
            forall|j: int| 0 <= j < i ==> (#[trigger] sinks@[j]).node_id != node_id,
        decreases sinks@.len() - i,
    {
        if sinks[i].node_id == node_id {
            let s = sinks[i].clone();
            assert(sinks@[i as int]@ == s@ && sinks@[i as int].node_id == node_id);
            return Ok(s);
        }
        i = i + 1;
    }
    Err(ProviderError::Unavailable("PipeWire output node is not present in the current session".to_string()))
}

} // verus!
