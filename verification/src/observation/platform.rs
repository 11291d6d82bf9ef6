//! Platform discovery: the logind session target, and the parsers and
//! decisions applied to what the platform probes read (os-release,
//! mountinfo, systemd unit states, NetworkManager devices, the Hyprland IPC
//! reply and the logind runtime path).
use vstd::prelude::*;
use vstd::utf8::encode_utf8;
use crate::num::{decimal, u64_decimal};
use crate::path::{paths_equal, same_path};
use crate::text::{ascii_lower, any_control, chars_eq, chars_of, find_chars, first_occurrence, has_control, has_prefix, lines, lit, slice_chars, split_lines, split_words, starts_with, string_of, to_ascii_lower, trim, trim_chars, trim_start, trim_start_chars, utf8_bytes, words};

verus! {

pub const PLATFORM_PROVIDER: &'static str = "linux-platform";
pub const PLATFORM_DISTRIBUTION_CAPABILITY: &'static str = "platform.distribution.observe";
pub const PLATFORM_ARCHITECTURE_CAPABILITY: &'static str = "platform.architecture.observe";
pub const PLATFORM_INIT_CAPABILITY: &'static str = "platform.init-system.observe";
pub const PLATFORM_SESSION_CAPABILITY: &'static str = "platform.session.observe";
pub const PLATFORM_COMPOSITOR_CAPABILITY: &'static str = "platform.compositor.observe";
pub const PLATFORM_NETWORK_PROVIDER_CAPABILITY: &'static str = "platform.provider.network.observe";
pub const PLATFORM_BLUETOOTH_PROVIDER_CAPABILITY: &'static str = "platform.provider.bluetooth.observe";
pub const PLATFORM_AUDIO_PROVIDER_CAPABILITY: &'static str = "platform.provider.audio.observe";
pub const PLATFORM_STORAGE_PROVIDER_CAPABILITY: &'static str = "platform.provider.storage.observe";
pub const PLATFORM_AUTHORIZATION_PROVIDER_CAPABILITY: &'static str = "platform.provider.authorization.observe";
pub const PLATFORM_FILESYSTEM_PROVIDER_CAPABILITY: &'static str = "platform.provider.filesystem.observe";
pub const PLATFORM_SNAPSHOTS_PROVIDER_CAPABILITY: &'static str = "platform.provider.snapshots.observe";

/// NetworkManager's device type for the loopback interface.
pub const NETWORKMANAGER_DEVICE_TYPE_LOOPBACK: u32 = 32;

/// Most devices NetworkManager may report.
pub const NETWORKMANAGER_MAX_DEVICES: usize = 128;

/// A platform probe failed; the message says why.
#[derive(Clone, Debug, PartialEq, Eq)]
pub struct PlatformProbeError {
    message: String,
}

impl PlatformProbeError {
    pub fn new(message: String) -> (r: Self)
        ensures
            r.message()@ == message@,
    {
        PlatformProbeError { message }
    }

    pub closed spec fn message(&self) -> String {
        self.message
    }

    /// What went wrong.
    pub fn text(&self) -> (r: &str)
        ensures
            r@ == self.message()@,
    {
        self.message.as_str()
    }
}

fn probe_error(message: &str) -> (e: PlatformProbeError)
    ensures
        e.message()@ == message@,
{
    PlatformProbeError::new(message.to_string())
}

/// Characters of a logind session identifier.
pub open spec fn session_id_char(c: char) -> bool {
    ('a' <= c && c <= 'z') || ('A' <= c && c <= 'Z') || ('0' <= c && c <= '9') || c == '_' || c == '-' || c == '.'
}

/// A bounded logind session identifier: one to 128 ASCII letters, digits,
/// `_`, `-` or `.`.
pub open spec fn valid_session_id(s: Seq<char>) -> bool {
    0 < s.len() <= 128 && forall|i: int| 0 <= i < s.len() ==> session_id_char(#[trigger] s[i])
}

fn is_session_id_char(c: char) -> (r: bool)
    ensures
        r == session_id_char(c),
{
    ('a' <= c && c <= 'z') || ('A' <= c && c <= 'Z') || ('0' <= c && c <= '9') || c == '_' || c == '-' || c == '.'
}

fn all_chars_session_id(s: &[char]) -> (r: bool)
    ensures
        r == forall|i: int| 0 <= i < s@.len() ==> session_id_char(#[trigger] s@[i]),
{
    let mut i: usize = 0;
    while i < s.len()
        invariant
            i <= s@.len(),
            forall|j: int| 0 <= j < i ==> session_id_char(#[trigger] s@[j]),
        decreases s@.len() - i,
    {
        if !is_session_id_char(s[i]) {
            return false;
        }
        i = i + 1;
    }
    true
}

/// The logind session a session-scoped probe observes, and its user.
#[derive(Clone, Debug, PartialEq, Eq)]
pub struct LogindSessionTarget {
    session_id: String,
    uid: u32,
}

impl LogindSessionTarget {
    pub closed spec fn spec_session_id(&self) -> Seq<char> {
        self.session_id@
    }

    pub closed spec fn spec_uid(&self) -> u32 {
        self.uid
    }

    /// A target for a valid session identifier.
    pub fn new(session_id: String, uid: u32) -> (r: Result<LogindSessionTarget, PlatformProbeError>)
        ensures
            r is Ok <==> valid_session_id(session_id@),
            r matches Ok(t) ==> t.spec_session_id() == session_id@ && t.spec_uid() == uid,
    {
        let chars = chars_of(session_id.as_str());
        if chars.len() == 0 || chars.len() > 128 || has_control(&chars) || !all_chars_session_id(&chars) {
            return Err(probe_error("invalid logind session identifier"));
        }
        Ok(LogindSessionTarget { session_id, uid })
    }

    pub fn session_id(&self) -> (r: &str)
        ensures
            r@ == self.spec_session_id(),
    {
        self.session_id.as_str()
    }

    pub fn uid(&self) -> (r: u32)
        ensures
            r == self.spec_uid(),
    {
        self.uid
    }
}

/// The canonical runtime directory of user `uid`.
pub open spec fn canonical_runtime_path(uid: u32) -> Seq<u8> {
    encode_utf8("/run/user/"@ + decimal(uid as nat))
}

/// The runtime path logind reports must be exactly `/run/user/<uid>`,
/// compared as paths and without touching the file system.
pub fn validate_runtime_path(path: &[u8], uid: u32) -> (r: Result<(), PlatformProbeError>)
    ensures
        r is Ok <==> same_path(path@, canonical_runtime_path(uid)),
{
    let mut expected = lit("/run/user/");
    let mut digits = u64_decimal(uid as u64);
    expected.append(&mut digits);
    let bytes = utf8_bytes(&expected);
    if !paths_equal(path, &bytes) {
        return Err(probe_error("logind RuntimePath does not match canonical selected-user path"));
    }
    Ok(())
}

/// `trim`, non-empty, at most 256 bytes, no control characters, then
/// ASCII-lowercased.
pub open spec fn normalized(value: Seq<char>) -> Option<Seq<char>> {
    let t = trim(value);
    if t.len() == 0 || encode_utf8(t).len() > 256 || any_control(t) {
        None
    } else {
        Some(ascii_lower(t))
    }
}

/// Normalizes an identity value (see [`normalized`]).
pub fn normalized_identity(value: &[char]) -> (r: Result<Vec<char>, PlatformProbeError>)
    ensures
        match normalized(value@) {
            Some(v) => r matches Ok(out) && out@ == v,
            None => r is Err,
        },
{
    let t = trim_chars(value);
    if t.len() == 0 {
        return Err(probe_error("identity is empty"));
    }
    if utf8_bytes(&t).len() > 256 || has_control(&t) {
        return Err(probe_error("identity is malformed"));
    }
    Ok(to_ascii_lower(&t))
}

/// `s` contains `c`.
pub open spec fn contains_char(s: Seq<char>, c: char) -> bool {
    exists|i: int| 0 <= i < s.len() && s[i] == c
}

fn has_char(s: &[char], c: char) -> (r: bool)
    ensures
        r == contains_char(s@, c),
{
    let mut i: usize = 0;
    while i < s.len()
        invariant
            i <= s@.len(),
            forall|j: int| 0 <= j < i ==> s@[j] != c,
        decreases s@.len() - i,
    {
        if s[i] == c {
            return true;
        }
        i = i + 1;
    }
    false
}

/// An os-release value: trimmed, non-empty, either wrapped in matching
/// quotes with no backslash inside, or unquoted with no quote or backslash.
pub open spec fn os_release_scalar(value: Seq<char>) -> Option<Seq<char>> {
    let t = trim(value);
    if t.len() == 0 {
        None
    } else if t[0] == '"' || t[0] == '\'' {
        if t.len() < 2 || t.last() != t[0] {
            None
        } else {
            let inner = t.subrange(1, t.len() - 1);
            if contains_char(inner, '\\') {
                None
            } else {
                Some(inner)
            }
        }
    } else if contains_char(t, '"') || contains_char(t, '\'') || contains_char(t, '\\') {
        None
    } else {
        Some(t)
    }
}

/// Parses an os-release value (see [`os_release_scalar`]).
pub fn parse_os_release_scalar(value: &[char]) -> (r: Result<Vec<char>, PlatformProbeError>)
    ensures
        match os_release_scalar(value@) {
            Some(v) => r matches Ok(out) && out@ == v,
            None => r is Err,
        },
{
    let t = trim_chars(value);
    if t.len() == 0 {
        return Err(probe_error("os-release ID is empty"));
    }
    if t[0] == '"' || t[0] == '\'' {
        let quote = t[0];
        if t.len() < 2 || t[t.len() - 1] != quote {
            return Err(probe_error("os-release ID has an unterminated quoted value"));
        }
        let inner = slice_chars(&t, 1, t.len() - 1);
        if has_char(&inner, '\\') {
            return Err(probe_error("os-release ID uses unsupported escape syntax"));
        }
        return Ok(inner);
    }
    if has_char(&t, '"') || has_char(&t, '\'') || has_char(&t, '\\') {
        return Err(probe_error("os-release ID has malformed quoting"));
    }
    Ok(t)
}

/// Characters of an os-release ID.
pub open spec fn os_id_char(c: char) -> bool {
    ('a' <= c && c <= 'z') || ('A' <= c && c <= 'Z') || ('0' <= c && c <= '9') || c == '.' || c == '_' || c == '-'
}

fn is_os_id_char(c: char) -> (r: bool)
    ensures
        r == os_id_char(c),
{
    ('a' <= c && c <= 'z') || ('A' <= c && c <= 'Z') || ('0' <= c && c <= '9') || c == '.' || c == '_' || c == '-'
}

pub open spec fn id_prefix() -> Seq<char> {
    seq!['I', 'D', '=']
}

/// The raw values of the `ID=` assignments among `ls`, each line trimmed.
pub open spec fn id_assignments(ls: Seq<Seq<char>>) -> Seq<Seq<char>>
    decreases ls.len(),
{
    if ls.len() == 0 {
        seq![]
    } else if has_prefix(trim(ls.last()), id_prefix()) {
        id_assignments(ls.drop_last()).push(trim(ls.last()).skip(3))
    } else {
        id_assignments(ls.drop_last())
    }
}

/// The distribution identity in os-release text: exactly one `ID=` line,
/// whose value is a well-quoted scalar of at most 64 ID characters,
/// normalized.
pub open spec fn os_release_id(text: Seq<char>) -> Option<Seq<char>> {
    let ids = id_assignments(lines(text));
    if ids.len() == 1 {
        match os_release_scalar(ids[0]) {
            Some(v) => if v.len() <= 64 && forall|i: int| 0 <= i < v.len() ==> os_id_char(#[trigger] v[i]) {
                normalized(v)
            } else {
                None
            },
            None => None,
        }
    } else {
        None
    }
}

fn check_os_id(v: &[char]) -> (r: bool)
    ensures
        r == (v@.len() <= 64 && forall|i: int| 0 <= i < v@.len() ==> os_id_char(#[trigger] v@[i])),
{
    if v.len() > 64 {
        return false;
    }
    let mut i: usize = 0;
    while i < v.len()
        invariant
            i <= v@.len(),
            forall|j: int| 0 <= j < i ==> os_id_char(#[trigger] v@[j]),
        decreases v@.len() - i,
    {
        if !is_os_id_char(v[i]) {
            return false;
        }
        i = i + 1;
    }
    true
}

/// The distribution identity of `/etc/os-release` text (see [`os_release_id`]).
pub fn parse_os_release_id(text: &str) -> (r: Result<String, PlatformProbeError>)
    ensures
        match os_release_id(text@) {
            Some(v) => r matches Ok(s) && s@ == v,
            None => r is Err,
        },
{
    let chars = chars_of(text);
    let ls = split_lines(&chars);
    let prefix = lit("ID=");
    proof {
        reveal_strlit("ID=");
        assert(prefix@ =~= id_prefix());
    }
    let ghost all = lines(text@);
    let mut found: Option<Vec<char>> = None;
    let mut i: usize = 0;
    assert(all.take(0) =~= Seq::<Seq<char>>::empty());
    while i < ls.len()
        invariant
            i <= ls@.len(),
            all == lines(text@),
            ls@.len() == all.len(),
            forall|k: int| 0 <= k < ls@.len() ==> #[trigger] ls@[k]@ == all[k],
            prefix@ == id_prefix(),
            id_assignments(all.take(i as int)).len() <= 1,
            match found {
                Some(v) => id_assignments(all.take(i as int)).len() == 1 && os_release_scalar(id_assignments(all.take(i as int))[0]) == Some(v@)
                    && v@.len() <= 64 && forall|j: int| 0 <= j < v@.len() ==> os_id_char(#[trigger] v@[j]),
                None => id_assignments(all.take(i as int)).len() == 0,
            },
        decreases ls@.len() - i,
    {
        proof {
            assert(all.take(i as int + 1).drop_last() =~= all.take(i as int));
            assert(all.take(i as int + 1).last() == all[i as int]);
        }
        let line = trim_chars(&ls[i]);
        if starts_with(&line, &prefix) {
            if found.is_some() {
                proof {
                    lemma_id_assignments_grow(all, i as int + 1);
                }
                return Err(probe_error("/etc/os-release contains duplicate ID assignments"));
            }
            let raw = slice_chars(&line, 3, line.len());
            let value = match parse_os_release_scalar(&raw) {
                Ok(v) => v,
                Err(e) => {
                    proof {
                        lemma_id_assignments_grow(all, i as int + 1);
                    }
                    return Err(e);
                },
            };
            if !check_os_id(&value) {
                proof {
                    lemma_id_assignments_grow(all, i as int + 1);
                }
                return Err(probe_error("os-release ID contains unsupported characters"));
            }
            found = Some(value);
        }
        i = i + 1;
    }
    proof {
        assert(all.take(ls@.len() as int) =~= all);
    }
    match found {
        Some(v) => {
            let normalized_value = normalized_identity(&v)?;
            Ok(string_of(&normalized_value))
        },
        None => Err(probe_error("/etc/os-release does not contain ID")),
    }
}

/// Once a prefix of the lines holds a second or a bad `ID=`, so do all
/// longer prefixes: the assignments only grow.
proof fn lemma_id_assignments_grow(all: Seq<Seq<char>>, n: int)
    requires
        0 <= n <= all.len(),
    ensures
        id_assignments(all).len() >= id_assignments(all.take(n)).len(),
        forall|k: int| 0 <= k < id_assignments(all.take(n)).len() ==> #[trigger] id_assignments(all)[k] == id_assignments(all.take(n))[k],
    decreases all.len() - n,
{
    if n < all.len() {
        lemma_id_assignments_grow(all, n + 1);
        assert(all.take(n + 1).drop_last() =~= all.take(n));
        let a = id_assignments(all.take(n));
        let b = id_assignments(all.take(n + 1));
        assert forall|k: int| 0 <= k < a.len() implies #[trigger] b[k] == a[k] by {}
    } else {
        assert(all.take(n) =~= all);
    }
}

/// What one mountinfo line says about the root mount: nothing when it does
/// not describe the root (no ` - ` separator, or mount point other than `/`),
/// otherwise the filesystem type if the line names one.
pub open spec fn mount_root_fs(line: Seq<char>) -> Option<Option<Seq<char>>> {
    let sep = seq![' ', '-', ' '];
    match first_occurrence(line, sep) {
        Some(k) => {
            let left = words(line.take(k));
            let right = words(line.skip(k + 3));
            if left.len() > 4 && left[4] == seq!['/'] {
                if right.len() > 0 {
                    Some(Some(right[0]))
                } else {
                    Some(None)
                }
            } else {
                None
            }
        },
        None => None,
    }
}

/// A mountinfo line describes the root mount exactly when, before its
/// first ` - ` separator, it has at least five fields and the fifth is `/`,
/// however many optional fields follow; the root's filesystem type is then
/// the first field after the separator.
pub proof fn law_root_mount_line(line: Seq<char>, k: int)
    requires
        first_occurrence(line, seq![' ', '-', ' ']) == Some(k),
    ensures
        words(line.take(k)).len() >= 5 && words(line.take(k))[4] == seq!['/'] && words(line.skip(k + 3)).len() >= 1
            ==> mount_root_fs(line) == Some(Some(words(line.skip(k + 3))[0])),
        words(line.take(k)).len() >= 5 && words(line.take(k))[4] == seq!['/'] && words(line.skip(k + 3)).len() == 0
            ==> mount_root_fs(line) == Some(None::<Seq<char>>),
        !(words(line.take(k)).len() >= 5 && words(line.take(k))[4] == seq!['/']) ==> mount_root_fs(line) is None,
{
}

/// The verdict of the first line that describes the root mount.
pub open spec fn first_root_mount(ls: Seq<Seq<char>>) -> Option<Option<Seq<char>>>
    decreases ls.len(),
{
    if ls.len() == 0 {
        None
    } else {
        match mount_root_fs(ls[0]) {
            Some(v) => Some(v),
            None => first_root_mount(ls.skip(1)),
        }
    }
}

/// The root filesystem type of `/proc/self/mountinfo` text: the type of the
/// first root mount line, normalized.
pub open spec fn root_fs_type(text: Seq<char>) -> Option<Seq<char>> {
    match first_root_mount(lines(text)) {
        Some(Some(fs)) => normalized(fs),
        _ => None,
    }
}

proof fn lemma_first_root_mount_skip(ls: Seq<Seq<char>>, i: int)
    requires
        0 <= i < ls.len(),
        forall|j: int| 0 <= j < i ==> mount_root_fs(#[trigger] ls[j]) is None,
    ensures
        first_root_mount(ls) == first_root_mount(ls.skip(i)),
    decreases i,
{
    if i > 0 {
        assert forall|j: int| 0 <= j < i - 1 implies mount_root_fs(#[trigger] ls.skip(1)[j]) is None by {
            assert(ls.skip(1)[j] == ls[j + 1]);
        }
        lemma_first_root_mount_skip(ls.skip(1), i - 1);
        assert(ls.skip(1).skip(i - 1) =~= ls.skip(i));
        assert(mount_root_fs(ls[0]) is None);
    } else {
        assert(ls.skip(0) =~= ls);
    }
}

fn mount_line_root(line: &[char]) -> (r: Option<Option<Vec<char>>>)
    ensures
        match mount_root_fs(line@) {
            None => r is None,
            Some(None) => r == Some(None::<Vec<char>>),
            Some(Some(fs)) => r matches Some(Some(v)) && v@ == fs,
        },
{
    let sep = vec![' ', '-', ' '];
    assert(sep@ =~= seq![' ', '-', ' ']);
    let k = match find_chars(line, &sep) {
        Some(k) => k,
        None => return None,
    };
    proof {
        crate::text::lemma_find_from(line@, sep@, 0);
    }
    let ll: usize = line.len();
    assert(k + 3 <= ll);
    let left = slice_chars(line, 0, k);
    let right = slice_chars(line, k + 3, ll);
    assert(left@ =~= line@.take(k as int));
    assert(right@ =~= line@.skip(k + 3));
    let lw = split_words(&left);
    let rw = split_words(&right);
    proof {
        assert(lw@.map_values(|v: Vec<char>| v@).len() == lw@.len());
        assert(rw@.map_values(|v: Vec<char>| v@).len() == rw@.len());
    }
    let slash = vec!['/'];
    assert(slash@ =~= seq!['/']);
    if lw.len() <= 4 || !chars_eq(&lw[4], &slash) {
        proof {
            if lw@.len() > 4 {
                assert(lw@.map_values(|v: Vec<char>| v@)[4] == lw@[4]@);
            }
        }
        return None;
    }
    assert(lw@.map_values(|v: Vec<char>| v@)[4] == lw@[4]@);
    if rw.len() == 0 {
        return Some(None);
    }
    assert(rw@.map_values(|v: Vec<char>| v@)[0] == rw@[0]@);
    Some(Some(rw[0].clone()))
}

/// The root filesystem type of mountinfo text (see [`root_fs_type`]).
pub fn root_filesystem_type(mountinfo: &str) -> (r: Result<String, PlatformProbeError>)
    ensures
        match root_fs_type(mountinfo@) {
            Some(v) => r matches Ok(s) && s@ == v,
            None => r is Err,
        },
{
    let chars = chars_of(mountinfo);
    let ls = split_lines(&chars);
    let ghost all = lines(mountinfo@);
    let mut i: usize = 0;
    while i < ls.len()
        invariant
            i <= ls@.len(),
            all == lines(mountinfo@),
            ls@.len() == all.len(),
            forall|k: int| 0 <= k < ls@.len() ==> #[trigger] ls@[k]@ == all[k],
            forall|j: int| 0 <= j < i ==> mount_root_fs(#[trigger] all[j]) is None,
        decreases ls@.len() - i,
    {
        match mount_line_root(&ls[i]) {
            None => {},
            Some(found) => {
                proof {
                    lemma_first_root_mount_skip(all, i as int);
                }
                match found {
                    None => return Err(probe_error("root mount entry is missing a filesystem type")),
                    Some(fs) => {
                        let v = normalized_identity(&fs)?;
                        return Ok(string_of(&v));
                    },
                }
            },
        }
        i = i + 1;
    }
    proof {
        assert forall|j: int| 0 <= j < all.len() implies mount_root_fs(#[trigger] all[j]) is None by {}
        lemma_no_root_mount(all);
    }
    Err(probe_error("mountinfo does not contain the root mount"))
}

proof fn lemma_no_root_mount(ls: Seq<Seq<char>>)
    requires
        forall|j: int| 0 <= j < ls.len() ==> mount_root_fs(#[trigger] ls[j]) is None,
    ensures
        first_root_mount(ls) is None,
    decreases ls.len(),
{
    if ls.len() > 0 {
        assert forall|j: int| 0 <= j < ls.skip(1).len() implies mount_root_fs(#[trigger] ls.skip(1)[j]) is None by {
            assert(ls.skip(1)[j] == ls[j + 1]);
        }
        lemma_no_root_mount(ls.skip(1));
        assert(mount_root_fs(ls[0]) is None);
    }
}

/// The audio provider identity for the states of the PipeWire and
/// WirePlumber user units.
pub open spec fn audio_identity_text(pipewire: bool, wireplumber: bool) -> Seq<char> {
    if pipewire && wireplumber {
        "pipewire-wireplumber"@
    } else if pipewire {
        "pipewire-only"@
    } else if wireplumber {
        "wireplumber-only"@
    } else {
        "absent"@
    }
}

pub fn audio_identity(pipewire: bool, wireplumber: bool) -> (r: &'static str)
    ensures
        r@ == audio_identity_text(pipewire, wireplumber),
{
    if pipewire && wireplumber {
        "pipewire-wireplumber"
    } else if pipewire {
        "pipewire-only"
    } else if wireplumber {
        "wireplumber-only"
    } else {
        "absent"
    }
}

/// Index of the first line of `ls` that is not blank.
pub open spec fn first_nonblank(ls: Seq<Seq<char>>) -> Option<int>
    decreases ls.len(),
{
    if ls.len() == 0 {
        None
    } else if trim(ls[0]).len() > 0 {
        Some(0)
    } else {
        match first_nonblank(ls.skip(1)) {
            Some(i) => Some(i + 1),
            None => None,
        }
    }
}

/// A Hyprland IPC `version` reply: its first non-blank line starts, after
/// leading whitespace and ignoring ASCII case, with `hyprland`.
pub open spec fn hyprland_version_reply(response: Seq<char>) -> bool {
    let ls = lines(response);
    match first_nonblank(ls) {
        Some(i) => 0 <= i < ls.len() && has_prefix(ascii_lower(trim_start(ls[i])), "hyprland"@),
        None => false,
    }
}

proof fn lemma_first_nonblank(ls: Seq<Seq<char>>, i: int)
    requires
        0 <= i < ls.len(),
        forall|j: int| 0 <= j < i ==> trim(#[trigger] ls[j]).len() == 0,
    ensures
        first_nonblank(ls) == match first_nonblank(ls.skip(i)) {
            Some(k) => Some(k + i),
            None => None::<int>,
        },
    decreases i,
{
    if i > 0 {
        assert forall|j: int| 0 <= j < i - 1 implies trim(#[trigger] ls.skip(1)[j]).len() == 0 by {
            assert(ls.skip(1)[j] == ls[j + 1]);
        }
        lemma_first_nonblank(ls.skip(1), i - 1);
        assert(ls.skip(1).skip(i - 1) =~= ls.skip(i));
        assert(trim(ls[0]).len() == 0);
    } else {
        assert(ls.skip(0) =~= ls);
    }
}

proof fn lemma_all_blank(ls: Seq<Seq<char>>)
    requires
        forall|j: int| 0 <= j < ls.len() ==> trim(#[trigger] ls[j]).len() == 0,
    ensures
        first_nonblank(ls) is None,
    decreases ls.len(),
{
    if ls.len() > 0 {
        assert forall|j: int| 0 <= j < ls.skip(1).len() implies trim(#[trigger] ls.skip(1)[j]).len() == 0 by {
            assert(ls.skip(1)[j] == ls[j + 1]);
        }
        lemma_all_blank(ls.skip(1));
        assert(trim(ls[0]).len() == 0);
    }
}

/// Whether a Hyprland IPC reply identifies Hyprland (see
/// [`hyprland_version_reply`]).
pub fn valid_hyprland_version_response(response: &str) -> (r: bool)
    ensures
        r == hyprland_version_reply(response@),
{
    let chars = chars_of(response);
    let ls = split_lines(&chars);
    let expected = lit("hyprland");
    let ghost all = lines(response@);
    let mut i: usize = 0;
    while i < ls.len()
        invariant
            i <= ls@.len(),
            all == lines(response@),
            ls@.len() == all.len(),
            forall|k: int| 0 <= k < ls@.len() ==> #[trigger] ls@[k]@ == all[k],
            expected@ == "hyprland"@,
            forall|j: int| 0 <= j < i ==> trim(#[trigger] all[j]).len() == 0,
        decreases ls@.len() - i,
    {
        let t = trim_chars(&ls[i]);
        if t.len() > 0 {
            proof {
                lemma_first_nonblank(all, i as int);
                assert(trim(all.skip(i as int)[0]).len() > 0);
            }
            let lowered = to_ascii_lower(&trim_start_chars(&ls[i]));
            return starts_with(&lowered, &expected);
        }
        i = i + 1;
    }
    proof {
        lemma_all_blank(all);
    }
    false
}

/// NetworkManager reports a managed device that is not the loopback.
pub open spec fn has_selected_device(states: Seq<(bool, u32)>) -> bool {
    exists|i: int| 0 <= i < states.len() && (#[trigger] states[i]).0 && states[i].1 != NETWORKMANAGER_DEVICE_TYPE_LOOPBACK
}

/// Requires NetworkManager to report, among its devices' `(managed,
/// device type)` states, a managed non-loopback device.
pub fn require_networkmanager_selected_device(device_states: &[(bool, u32)]) -> (r: Result<(), PlatformProbeError>)
    ensures
        r is Ok <==> has_selected_device(device_states@),
{
    let mut i: usize = 0;
    while i < device_states.len()
        invariant
            i <= device_states@.len(),
            forall|j: int| 0 <= j < i ==> !((#[trigger] device_states@[j]).0 && device_states@[j].1 != NETWORKMANAGER_DEVICE_TYPE_LOOPBACK),
        decreases device_states@.len() - i,
    {
        let (managed, device_type) = device_states[i];
        if managed && device_type != NETWORKMANAGER_DEVICE_TYPE_LOOPBACK {
            return Ok(());
        }
        i = i + 1;
    }
    Err(probe_error("NetworkManager is live but does not authoritatively report any managed non-loopback device"))
}

/// A Hyprland instance signature usable as a directory name: one to 128
/// ASCII letters, digits, `.`, `_` or `-`, and neither `.` nor `..`.
pub open spec fn safe_signature(s: Seq<char>) -> bool {
    &&& 0 < s.len() <= 128
    &&& s != seq!['.']
    &&& s != seq!['.', '.']
    &&& forall|i: int| 0 <= i < s.len() ==> os_id_char(#[trigger] s[i])
}

pub fn safe_instance_signature(value: &str) -> (r: bool)
    ensures
        r == safe_signature(value@),
{
    let chars = chars_of(value);
    if chars.len() == 0 || chars.len() > 128 {
        return false;
    }
    if chars.len() == 1 && chars[0] == '.' {
        assert(chars@ =~= seq!['.']);
        return false;
    }
    if chars.len() == 2 && chars[0] == '.' && chars[1] == '.' {
        assert(chars@ =~= seq!['.', '.']);
        return false;
    }
    let mut i: usize = 0;
    while i < chars.len()
        invariant
            i <= chars@.len(),
            chars@ == value@,
            forall|j: int| 0 <= j < i ==> os_id_char(#[trigger] chars@[j]),
        decreases chars@.len() - i,
    {
        if !is_os_id_char(chars[i]) {
            return false;
        }
        i = i + 1;
    }
    proof {
        if chars@ == seq!['.'] {
            assert(chars@.len() == 1);
        }
        if chars@ == seq!['.', '.'] {
            assert(chars@.len() == 2);
        }
    }
    true
}

} // verus!
