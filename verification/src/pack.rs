//! Pack building: the time-based code behind a pack's icon, the icon's layout, the
//! ticking-area script, and the labels a pack is given.
use std::time::{Duration, SystemTime};
use vstd::prelude::*;
use vstd::string::*;

use crate::text::{int_text, nat_text, push_i64, push_u64};
use crate::json::{
    has_key, is_num, is_str, json_pretty_text, member, num_value, serde_json_pretty_text, str_value,
    Json,
};

verus! {

#[verifier::external_type_specification]
#[verifier::external_body]
pub struct ExSystemTime(SystemTime);

/// `SystemTime::now`: the system clock's current time; nothing is known of its value.
#[verifier::external_body]
fn system_now() -> SystemTime {
    SystemTime::now()
}

/// `SystemTime::duration_since(UNIX_EPOCH)`: the time since the Unix epoch, or `None` where
/// the clock reads earlier than the epoch.
#[verifier::external_body]
fn since_unix_epoch(t: &SystemTime) -> Option<Duration> {
    t.duration_since(SystemTime::UNIX_EPOCH).ok()
}

/// The most nanoseconds a `Duration` holds: `Duration::MAX` is `u64::MAX` seconds and
/// 999,999,999 nanoseconds.
pub open spec fn max_duration_nanos() -> int {
    u64::MAX as int * 1_000_000_000 + 999_999_999
}

/// `Duration::as_nanos`: the whole duration in nanoseconds, which is at most
/// `Duration::MAX`'s.
#[verifier::external_body]
fn duration_nanos(d: &Duration) -> (res: u128)
    ensures
        res <= max_duration_nanos(),
{
    d.as_nanos()
}

/// Nanoseconds since the Unix epoch by the system clock, 0 where the clock reads earlier.
/// Which reading the clock gives is left open.
pub fn unix_nanos() -> (res: u128)
    ensures
        res <= max_duration_nanos(),
{
    let now = system_now();
    match since_unix_epoch(&now) {
        Some(d) => duration_nanos(&d),
        None => 0,
    }
}

/// A `u32` rotated left by 13 bits.
pub open spec fn rotl13(x: u32) -> u32 {
    (x << 13u32) | (x >> 19u32)
}

/// The code for an instant given in nanoseconds: its low 32 bits xor its next 32 bits
/// rotated left by 13.
pub open spec fn code_from_nanos(n: u128) -> u32 {
    (n as u32) ^ rotl13((n >> 32u128) as u32)
}

/// The code for an instant given in nanoseconds.
pub fn time_code(nanos: u128) -> (res: u32)
    ensures
        res == code_from_nanos(nanos),
{
    let lo: u32 = nanos as u32;
    let hi: u32 = (nanos >> 32u128) as u32;
    lo ^ ((hi << 13u32) | (hi >> 19u32))
}

/// A code that changes with the time, for a pack's icon.
pub fn time_based_code() -> (res: u32)
    ensures
        exists|n: u128| res == code_from_nanos(n),
{
    let n = unix_nanos();
    time_code(n)
}

/// The patch shapes allowed in the middle of an icon.
pub open spec fn middle_patch(i: u32) -> usize {
    if i == 0 {
        0
    } else if i == 1 {
        4
    } else if i == 2 {
        8
    } else {
        15
    }
}

/// One of the nine cells of an icon: its patch shape, how many quarter turns it is
/// rotated, and whether its colours are swapped.
#[derive(Clone, Copy, PartialEq, Eq, Structural, Debug)]
pub struct IdenticonCell {
    pub patch: usize,
    pub turn: u32,
    pub invert: bool,
}

/// An icon's layout: its cells row by row, and its foreground colour.
pub struct IdenticonLayout {
    pub cells: Vec<IdenticonCell>,
    pub fore: [u8; 3],
}

/// Which of the four side cells (top, right, bottom, left) or corner cells (top-left,
/// top-right, bottom-right, bottom-left) a cell is, counting clockwise.
pub open spec fn ring_index(px: int, py: int, side: bool) -> u32 {
    if side {
        if px == 1 && py == 0 {
            0
        } else if px == 2 && py == 1 {
            1
        } else if px == 1 && py == 2 {
            2
        } else {
            3
        }
    } else {
        if px == 0 && py == 0 {
            0
        } else if px == 2 && py == 0 {
            1
        } else if px == 2 && py == 2 {
            2
        } else {
            3
        }
    }
}

/// The cell at column `px`, row `py` of the icon for `code`.
pub open spec fn identicon_cell(code: u32, px: int, py: int) -> IdenticonCell {
    if px == 1 && py == 1 {
        IdenticonCell {
            patch: middle_patch(code & 3u32),
            turn: 0,
            invert: (code >> 2u32) & 1u32 != 0,
        }
    } else if px == 1 || py == 1 {
        IdenticonCell {
            patch: ((code >> 10u32) & 15u32) as usize,
            turn: ((((code >> 15u32) & 3u32) + 1 + ring_index(px, py, true)) % 4) as u32,
            invert: (code >> 14u32) & 1u32 != 0,
        }
    } else {
        IdenticonCell {
            patch: ((code >> 3u32) & 15u32) as usize,
            turn: ((((code >> 8u32) & 3u32) + 1 + ring_index(px, py, false)) % 4) as u32,
            invert: (code >> 7u32) & 1u32 != 0,
        }
    }
}

/// The icon's foreground colour: five bits each of red, green and blue, scaled by 8.
pub open spec fn identicon_fore(code: u32) -> [u8; 3] {
    [
        (((code >> 27u32) & 31u32) << 3u32) as u8,
        (((code >> 21u32) & 31u32) << 3u32) as u8,
        (((code >> 16u32) & 31u32) << 3u32) as u8,
    ]
}

fn ring_position(px: u32, py: u32, side: bool) -> (res: u32)
    ensures
        res == ring_index(px as int, py as int, side),
{
    if side {
        if px == 1 && py == 0 {
            0
        } else if px == 2 && py == 1 {
            1
        } else if px == 1 && py == 2 {
            2
        } else {
            3
        }
    } else {
        if px == 0 && py == 0 {
            0
        } else if px == 2 && py == 0 {
            1
        } else if px == 2 && py == 2 {
            2
        } else {
            3
        }
    }
}

/// The layout of the icon for `code`.
pub fn identicon_layout(code: u32) -> (res: IdenticonLayout)
    ensures
        res.cells@.len() == 9,
        forall|py: int, px: int|
            0 <= py < 3 && 0 <= px < 3 ==> #[trigger] res.cells@[py * 3 + px] == identicon_cell(
                code,
                px,
                py,
            ),
        res.fore == identicon_fore(code),
{
    let m = code & 3u32;
    let middle: usize = if m == 0 {
        0
    } else if m == 1 {
        4
    } else if m == 2 {
        8
    } else {
        15
    };
    let middle_invert = (code >> 2u32) & 1u32 != 0;
    let corner_type = ((code >> 3u32) & 15u32) as usize;
    let corner_invert = (code >> 7u32) & 1u32 != 0;
    let corner_turn = (code >> 8u32) & 3u32;
    let side_type = ((code >> 10u32) & 15u32) as usize;
    let side_invert = (code >> 14u32) & 1u32 != 0;
    let side_turn = (code >> 15u32) & 3u32;
    assert(corner_turn <= 3 && side_turn <= 3) by (bit_vector)
        requires
            corner_turn == (code >> 8u32) & 3u32,
            side_turn == (code >> 15u32) & 3u32,
    ;
    let mut cells: Vec<IdenticonCell> = Vec::new();
    let mut py: u32 = 0;
    while py < 3
        invariant
            py <= 3,
            cells@.len() == py * 3,
            middle == middle_patch(code & 3u32),
            middle_invert == ((code >> 2u32) & 1u32 != 0),
            corner_type == ((code >> 3u32) & 15u32) as usize,
            corner_invert == ((code >> 7u32) & 1u32 != 0),
            corner_turn == (code >> 8u32) & 3u32,
            side_type == ((code >> 10u32) & 15u32) as usize,
            side_invert == ((code >> 14u32) & 1u32 != 0),
            side_turn == (code >> 15u32) & 3u32,
            corner_turn <= 3,
            side_turn <= 3,
            forall|y: int, x: int|
                0 <= y < py && 0 <= x < 3 ==> #[trigger] cells@[y * 3 + x] == identicon_cell(
                    code,
                    x,
                    y,
                ),
        decreases 3 - py,
    {
        let mut px: u32 = 0;
        while px < 3
            invariant
                py < 3,
                px <= 3,
                cells@.len() == py * 3 + px,
                middle == middle_patch(code & 3u32),
                middle_invert == ((code >> 2u32) & 1u32 != 0),
                corner_type == ((code >> 3u32) & 15u32) as usize,
                corner_invert == ((code >> 7u32) & 1u32 != 0),
                corner_turn == (code >> 8u32) & 3u32,
                side_type == ((code >> 10u32) & 15u32) as usize,
                side_invert == ((code >> 14u32) & 1u32 != 0),
                side_turn == (code >> 15u32) & 3u32,
                corner_turn <= 3,
                side_turn <= 3,
                forall|y: int, x: int|
                    (0 <= y < py && 0 <= x < 3) || (y == py && 0 <= x < px) ==> #[trigger] cells@[y
                        * 3 + x] == identicon_cell(code, x, y),
            decreases 3 - px,
        {
            let cell = if px == 1 && py == 1 {
                IdenticonCell { patch: middle, turn: 0, invert: middle_invert }
            } else if px == 1 || py == 1 {
                let i = ring_position(px, py, true);
                IdenticonCell { patch: side_type, turn: (side_turn + 1 + i) % 4, invert: side_invert }
            } else {
                let i = ring_position(px, py, false);
                IdenticonCell {
                    patch: corner_type,
                    turn: (corner_turn + 1 + i) % 4,
                    invert: corner_invert,
                }
            };
            assert(cell == identicon_cell(code, px as int, py as int));
            cells.push(cell);
            assert(cells@[py * 3 + px] == cell);
            px = px + 1;
        }
        py = py + 1;
    }
    let red = (((code >> 27u32) & 31u32) << 3u32) as u8;
    let green = (((code >> 21u32) & 31u32) << 3u32) as u8;
    let blue = (((code >> 16u32) & 31u32) << 3u32) as u8;
    IdenticonLayout { cells, fore: [red, green, blue] }
}

/// A pack label: the value given where it is not empty, else the default.
pub open spec fn spec_pack_label(value: Option<Seq<char>>, default: Seq<char>) -> Seq<char> {
    match value {
        Some(v) => if v.len() > 0 {
            v
        } else {
            default
        },
        None => default,
    }
}

pub open spec fn opt_str(value: Option<&str>) -> Option<Seq<char>> {
    match value {
        Some(s) => Some(s@),
        None => None,
    }
}

/// A pack's label: the value given, or the default where none or an empty one is.
pub fn pack_label<'a>(value: Option<&'a str>, default: &'a str) -> (res: &'a str)
    ensures
        res@ == spec_pack_label(opt_str(value), default@),
{
    match value {
        Some(v) => if v.unicode_len() > 0 {
            v
        } else {
            default
        },
        None => default,
    }
}

/// Whether any of the pack's labels is given and not empty.
pub open spec fn spec_labels_given(
    name: Option<Seq<char>>,
    author: Option<Seq<char>>,
    desc: Option<Seq<char>>,
) -> bool {
    (name matches Some(n) && n.len() > 0) || (author matches Some(a) && a.len() > 0) || (
    desc matches Some(d) && d.len() > 0)
}

/// A pack is labelled exactly when one of its name, author and description is given and
/// not empty; any one of them alone is enough.
pub proof fn labels_given_when_one_is_not_empty(
    name: Option<Seq<char>>,
    author: Option<Seq<char>>,
    desc: Option<Seq<char>>,
)
    ensures
        spec_labels_given(name, author, desc) <==> exists|l: Seq<char>|
            #![trigger l.len()]
            l.len() > 0 && (name == Some(l) || author == Some(l) || desc == Some(l)),
{
    if spec_labels_given(name, author, desc) {
        if name is Some && name->0.len() > 0 {
            assert(name->0.len() > 0);
        } else if author is Some && author->0.len() > 0 {
            assert(author->0.len() > 0);
        } else {
            assert(desc->0.len() > 0);
        }
    }
}

/// Whether a request gives any of the pack's name, author or description.
pub fn labels_given(name: Option<&str>, author: Option<&str>, desc: Option<&str>) -> (res: bool)
    ensures
        res == spec_labels_given(opt_str(name), opt_str(author), opt_str(desc)),
        res <==> exists|l: Seq<char>|
            #![trigger l.len()]
            l.len() > 0 && (opt_str(name) == Some(l) || opt_str(author) == Some(l) || opt_str(desc)
                == Some(l)),
{
    proof {
        labels_given_when_one_is_not_empty(opt_str(name), opt_str(author), opt_str(desc));
    }
    let n = match name {
        Some(s) => s.unicode_len() > 0,
        None => false,
    };
    let a = match author {
        Some(s) => s.unicode_len() > 0,
        None => false,
    };
    let d = match desc {
        Some(s) => s.unicode_len() > 0,
        None => false,
    };
    n || a || d
}

/// The nested callbacks that run functions `i..n` one tick after another and then remove
/// the ticking area.
pub open spec fn run_chain(i: nat, n: nat) -> Seq<char>
    decreases n - i,
{
    if i + 1 >= n {
        "entity.runCommand('function output_"@ + nat_text(i) + "');\nServer.system.run(() => {\n  entity.runCommand(`tickingarea remove colorify`);\n});"@
    } else {
        "entity.runCommand('function output_"@ + nat_text(i) + "');\nServer.system.run(() => {\n"@
            + run_chain(i + 1, n) + "\n});"@
    }
}

pub open spec fn ticking_head(size: [i32; 3]) -> Seq<char> {
    "import * as Server from \"@minecraft/server\";\n\nServer.system.runInterval(() => {\n  const entities = Server.world.getDimension('overworld').getEntities();\n  for (let entity of entities) {\n    if (entity.nameTag == 'block' && !entity.hasTag('blocked')) {\n      entity.runCommand(`tickingarea add ~ ~ ~ ~"@
        + int_text(size[0] - 1) + " ~"@ + int_text(size[1] - 1) + " ~"@ + int_text(size[2] - 1)
        + " colorify`);\n      entity.addTag('blocked');\n      Server.system.runTimeout(() => {\n"@
}

pub open spec fn ticking_tail() -> Seq<char> {
    "\n      }, 10);\n    }\n  }\n});\n"@
}

/// The script that, once a structure's marker entity appears, adds a ticking area over the
/// structure, runs its `n` functions one tick apart and removes the area.
pub open spec fn ticking_script(n: nat, size: [i32; 3]) -> Seq<char> {
    ticking_head(size) + (if n > 0 {
        run_chain(0, n)
    } else {
        Seq::<char>::empty()
    }) + ticking_tail()
}

fn push_chain(s: &mut String, i: usize, n: usize)
    requires
        i < n,
    ensures
        final(s)@ == old(s)@ + run_chain(i as nat, n as nat),
    decreases n - i,
{
    s.append("entity.runCommand('function output_");
    push_u64(s, i as u64);
    if i + 1 >= n {
        s.append(
            "');\nServer.system.run(() => {\n  entity.runCommand(`tickingarea remove colorify`);\n});",
        );
    } else {
        s.append("');\nServer.system.run(() => {\n");
        push_chain(s, i + 1, n);
        s.append("\n});");
    }
    assert(final(s)@ =~= old(s)@ + run_chain(i as nat, n as nat));
}

/// The script that runs the function files in a ticking area of the structure's size.
pub fn ticking_script_text(file_count: usize, size: [i32; 3]) -> (res: String)
    ensures
        res@ == ticking_script(file_count as nat, size),
{
    let mut s = String::new();
    s.append(
        "import * as Server from \"@minecraft/server\";\n\nServer.system.runInterval(() => {\n  const entities = Server.world.getDimension('overworld').getEntities();\n  for (let entity of entities) {\n    if (entity.nameTag == 'block' && !entity.hasTag('blocked')) {\n      entity.runCommand(`tickingarea add ~ ~ ~ ~",
    );
    push_i64(&mut s, size[0] as i64 - 1);
    s.append(" ~");
    push_i64(&mut s, size[1] as i64 - 1);
    s.append(" ~");
    push_i64(&mut s, size[2] as i64 - 1);
    s.append(" colorify`);\n      entity.addTag('blocked');\n      Server.system.runTimeout(() => {\n");
    let ghost head = s@;
    assert(head =~= ticking_head(size));
    if file_count > 0 {
        push_chain(&mut s, 0, file_count);
    }
    s.append("\n      }, 10);\n    }\n  }\n});\n");
    assert(s@ =~= ticking_script(file_count as nat, size));
    s
}

// ---------------------------------------------------------------------------
// Pack information files
// ---------------------------------------------------------------------------
pub open spec fn is_lower_hex(c: char) -> bool {
    ('0' <= c <= '9') || ('a' <= c <= 'f')
}

/// A random (version 4) UUID as text: 36 characters, lower-case hex digits in groups of
/// 8, 4, 4, 4 and 12 joined by hyphens, with version digit `4` and variant digit `8` to
/// `b`.
pub open spec fn is_v4_uuid_text(s: Seq<char>) -> bool {
    &&& s.len() == 36
    &&& forall|i: int|
        0 <= i < 36 ==> if i == 8 || i == 13 || i == 18 || i == 23 {
            s[i] == '-'
        } else {
            is_lower_hex(#[trigger] s[i])
        }
    &&& s[14] == '4'
    &&& (s[19] == '8' || s[19] == '9' || s[19] == 'a' || s[19] == 'b')
}

/// `uuid::Uuid::new_v4` written with `to_string`: a fresh random UUID, hyphenated in lower
/// case. Which UUID comes out is left open; the `uuid` crate panics where the system's
/// random source fails, which no argument can rule out.
#[verifier::external_body]
fn new_uuid() -> (res: String)
    ensures
        is_v4_uuid_text(res@),
{
    uuid::Uuid::new_v4().to_string()
}

/// The UUIDs a pack's information files name.
#[derive(Debug)]
pub struct PackIds {
    pub behaviour: String,
    pub resources: String,
    pub data_module: String,
    pub script_module: String,
    pub resources_module: String,
}

pub open spec fn pack_ids_ok(ids: PackIds) -> bool {
    is_v4_uuid_text(ids.behaviour@) && is_v4_uuid_text(ids.resources@) && is_v4_uuid_text(
        ids.data_module@,
    ) && is_v4_uuid_text(ids.script_module@) && is_v4_uuid_text(ids.resources_module@)
}

/// Five fresh UUIDs for a pack.
pub fn new_pack_ids() -> (res: PackIds)
    ensures
        pack_ids_ok(res),
{
    PackIds {
        behaviour: new_uuid(),
        resources: new_uuid(),
        data_module: new_uuid(),
        script_module: new_uuid(),
        resources_module: new_uuid(),
    }
}

/// `[§bColorify§f] ` and the pack's description.
pub open spec fn pack_description(desc: Seq<char>) -> Seq<char> {
    "[§bColorify§f] "@ + desc
}

/// `[a, b, c]`, numbers.
pub open spec fn is_version(j: Json, a: Seq<char>, b: Seq<char>, c: Seq<char>) -> bool {
    &&& j matches Json::Array(xs)
    &&& xs@.len() == 3
    &&& is_num(xs@[0], a)
    &&& is_num(xs@[1], b)
    &&& is_num(xs@[2], c)
}

/// `[t]`, one string.
pub open spec fn is_str_list(j: Json, t: Seq<char>) -> bool {
    j matches Json::Array(xs) && xs@.len() == 1 && is_str(xs@[0], t)
}

/// A pack's `header` object.
pub open spec fn header_json(j: Json, name: Seq<char>, description: Seq<char>, uuid: Seq<char>) -> bool {
    &&& j matches Json::Object(es)
    &&& es@.len() == 5
    &&& has_key(es@[0], "name"@) && is_str(es@[0].1, name)
    &&& has_key(es@[1], "description"@) && is_str(es@[1].1, description)
    &&& has_key(es@[2], "uuid"@) && is_str(es@[2].1, uuid)
    &&& has_key(es@[3], "min_engine_version"@) && is_version(es@[3].1, "1"@, "19"@, "50"@)
    &&& has_key(es@[4], "version"@) && is_version(es@[4].1, "1"@, "0"@, "0"@)
}

/// A pack's `metadata` object.
pub open spec fn metadata_json(j: Json, author: Seq<char>) -> bool {
    &&& j matches Json::Object(es)
    &&& es@.len() == 2
    &&& has_key(es@[0], "authors"@) && is_str_list(es@[0].1, author)
    &&& has_key(es@[1], "generated_with"@)
    &&& es@[1].1 matches Json::Object(gs)
    &&& gs@.len() == 1
    &&& has_key(gs@[0], "colorify"@) && is_str_list(gs@[0].1, "6.1.8"@)
}

/// A `modules` entry of the given type.
pub open spec fn module_json(j: Json, kind: Seq<char>, uuid: Seq<char>) -> bool {
    &&& j matches Json::Object(es)
    &&& es@.len() == 3
    &&& has_key(es@[0], "type"@) && is_str(es@[0].1, kind)
    &&& has_key(es@[1], "uuid"@) && is_str(es@[1].1, uuid)
    &&& has_key(es@[2], "version"@) && is_version(es@[2].1, "1"@, "0"@, "0"@)
}

/// The script module entry.
pub open spec fn script_module_json(j: Json, uuid: Seq<char>) -> bool {
    &&& j matches Json::Object(es)
    &&& es@.len() == 4
    &&& has_key(es@[0], "type"@) && is_str(es@[0].1, "script"@)
    &&& has_key(es@[1], "uuid"@) && is_str(es@[1].1, uuid)
    &&& has_key(es@[2], "entry"@) && is_str(es@[2].1, "scripts/index.js"@)
    &&& has_key(es@[3], "version"@) && is_version(es@[3].1, "1"@, "0"@, "0"@)
}

/// The dependency on the game's server scripting module.
pub open spec fn server_dependency_json(j: Json) -> bool {
    &&& j matches Json::Object(es)
    &&& es@.len() == 2
    &&& has_key(es@[0], "module_name"@) && is_str(es@[0].1, "@minecraft/server"@)
    &&& has_key(es@[1], "version"@) && is_str(es@[1].1, "1.10.0"@)
}

/// The dependency on another pack.
pub open spec fn pack_dependency_json(j: Json, uuid: Seq<char>) -> bool {
    &&& j matches Json::Object(es)
    &&& es@.len() == 2
    &&& has_key(es@[0], "uuid"@) && is_str(es@[0].1, uuid)
    &&& has_key(es@[1], "version"@) && is_str(es@[1].1, "1.0.0"@)
}

/// The behaviour pack's information file as a JSON value: the server module as a
/// dependency, and the resource pack where there is one; a data module, and a script
/// module where there is a script.
pub open spec fn behaviour_info_json(
    j: Json,
    name: Seq<char>,
    author: Seq<char>,
    desc: Seq<char>,
    include_rp: bool,
    include_script: bool,
    ids: PackIds,
) -> bool {
    &&& j matches Json::Object(es)
    &&& es@.len() == 5
    &&& has_key(es@[0], "format_version"@) && is_num(es@[0].1, "2"@)
    &&& has_key(es@[1], "header"@) && header_json(es@[1].1, name, pack_description(desc), ids.behaviour@)
    &&& has_key(es@[2], "modules"@)
    &&& es@[2].1 matches Json::Array(ms)
    &&& ms@.len() == (if include_script { 2int } else { 1int })
    &&& module_json(ms@[0], "data"@, ids.data_module@)
    &&& (include_script ==> script_module_json(ms@[1], ids.script_module@))
    &&& has_key(es@[3], "dependencies"@)
    &&& es@[3].1 matches Json::Array(ds)
    &&& ds@.len() == (if include_rp { 2int } else { 1int })
    &&& server_dependency_json(ds@[0])
    &&& (include_rp ==> pack_dependency_json(ds@[1], ids.resources@))
    &&& has_key(es@[4], "metadata"@) && metadata_json(es@[4].1, author)
}

/// The resource pack's information file as a JSON value: it depends on the behaviour pack
/// and has one resources module.
pub open spec fn resources_info_json(j: Json, name: Seq<char>, author: Seq<char>, desc: Seq<char>, ids: PackIds) -> bool {
    &&& j matches Json::Object(es)
    &&& es@.len() == 5
    &&& has_key(es@[0], "format_version"@) && is_num(es@[0].1, "2"@)
    &&& has_key(es@[1], "header"@) && header_json(es@[1].1, name, pack_description(desc), ids.resources@)
    &&& has_key(es@[2], "modules"@)
    &&& es@[2].1 matches Json::Array(ms)
    &&& ms@.len() == 1
    &&& module_json(ms@[0], "resources"@, ids.resources_module@)
    &&& has_key(es@[3], "dependencies"@)
    &&& es@[3].1 matches Json::Array(ds)
    &&& ds@.len() == 1
    &&& pack_dependency_json(ds@[0], ids.behaviour@)
    &&& has_key(es@[4], "metadata"@) && metadata_json(es@[4].1, author)
}

/// The behaviour pack's information file, as `serde_json` pretty-prints its value.
pub open spec fn behaviour_info_text(
    text: Seq<char>,
    name: Seq<char>,
    author: Seq<char>,
    desc: Seq<char>,
    include_rp: bool,
    include_script: bool,
    ids: PackIds,
) -> bool {
    exists|j: Json|
        behaviour_info_json(j, name, author, desc, include_rp, include_script, ids) && text
            == serde_json_pretty_text(j)
}

/// The resource pack's information file, as `serde_json` pretty-prints its value.
pub open spec fn resources_info_text(text: Seq<char>, name: Seq<char>, author: Seq<char>, desc: Seq<char>, ids: PackIds) -> bool {
    exists|j: Json| resources_info_json(j, name, author, desc, ids) && text == serde_json_pretty_text(j)
}

/// The text of a pack's information files.
pub struct PackInfoTexts {
    pub ids: PackIds,
    /// The behaviour pack's file (the only one where there is no resource pack).
    pub behaviour: String,
    /// The resource pack's file, where there is one.
    pub resources: Option<String>,
}

fn version_value(a: &str, b: &str, c: &str) -> (res: Json)
    ensures
        is_version(res, a@, b@, c@),
{
    Json::Array(vec![num_value(a), num_value(b), num_value(c)])
}

fn header_value(name: &str, description: &str, uuid: &str) -> (res: Json)
    ensures
        header_json(res, name@, description@, uuid@),
{
    Json::Object(vec![
        member("name", str_value(name)),
        member("description", str_value(description)),
        member("uuid", str_value(uuid)),
        member("min_engine_version", version_value("1", "19", "50")),
        member("version", version_value("1", "0", "0")),
    ])
}

fn metadata_value(author: &str) -> (res: Json)
    ensures
        metadata_json(res, author@),
{
    let generated = Json::Object(vec![member("colorify", Json::Array(vec![str_value("6.1.8")]))]);
    Json::Object(vec![
        member("authors", Json::Array(vec![str_value(author)])),
        member("generated_with", generated),
    ])
}

fn module_value(kind: &str, uuid: &str) -> (res: Json)
    ensures
        module_json(res, kind@, uuid@),
{
    Json::Object(vec![
        member("type", str_value(kind)),
        member("uuid", str_value(uuid)),
        member("version", version_value("1", "0", "0")),
    ])
}

fn pack_dependency_value(uuid: &str) -> (res: Json)
    ensures
        pack_dependency_json(res, uuid@),
{
    Json::Object(vec![member("uuid", str_value(uuid)), member("version", str_value("1.0.0"))])
}

/// The information files of a pack whose UUIDs are given.
pub fn pack_info_texts_with(
    name: &str,
    author: &str,
    desc: &str,
    include_rp: bool,
    include_script: bool,
    ids: PackIds,
) -> (res: PackInfoTexts)
    ensures
        res.ids == ids,
        behaviour_info_text(res.behaviour@, name@, author@, desc@, include_rp, include_script, ids),
        include_rp ==> (res.resources matches Some(r) && resources_info_text(
            r@,
            name@,
            author@,
            desc@,
            ids,
        )),
        !include_rp ==> res.resources is None,
{
    let mut description = String::from_str("[§bColorify§f] ");
    description.append(desc);
    let mut modules = vec![module_value("data", ids.data_module.as_str())];
    if include_script {
        modules.push(
            Json::Object(
                vec![
                    member("type", str_value("script")),
                    member("uuid", str_value(ids.script_module.as_str())),
                    member("entry", str_value("scripts/index.js")),
                    member("version", version_value("1", "0", "0")),
                ],
            ),
        );
    }
    let server = Json::Object(
        vec![member("module_name", str_value("@minecraft/server")), member("version", str_value("1.10.0"))],
    );
    let mut deps = vec![server];
    if include_rp {
        deps.push(pack_dependency_value(ids.resources.as_str()));
    }
    let bp = Json::Object(vec![
        member("format_version", num_value("2")),
        member("header", header_value(name, description.as_str(), ids.behaviour.as_str())),
        member("modules", Json::Array(modules)),
        member("dependencies", Json::Array(deps)),
        member("metadata", metadata_value(author)),
    ]);
    assert(behaviour_info_json(bp, name@, author@, desc@, include_rp, include_script, ids));
    let behaviour = json_pretty_text(&bp);
    let resources = if include_rp {
        let rp = Json::Object(vec![
            member("format_version", num_value("2")),
            member("header", header_value(name, description.as_str(), ids.resources.as_str())),
            member("modules", Json::Array(vec![module_value("resources", ids.resources_module.as_str())])),
            member("dependencies", Json::Array(vec![pack_dependency_value(ids.behaviour.as_str())])),
            member("metadata", metadata_value(author)),
        ]);
        assert(resources_info_json(rp, name@, author@, desc@, ids));
        Some(json_pretty_text(&rp))
    } else {
        None
    };
    PackInfoTexts { ids, behaviour, resources }
}

/// The information files of a new pack, under fresh UUIDs.
pub fn pack_info_texts(
    name: &str,
    author: &str,
    desc: &str,
    include_rp: bool,
    include_script: bool,
) -> (res: PackInfoTexts)
    ensures
        pack_ids_ok(res.ids),
        behaviour_info_text(res.behaviour@, name@, author@, desc@, include_rp, include_script, res.ids),
        include_rp ==> (res.resources matches Some(r) && resources_info_text(
            r@,
            name@,
            author@,
            desc@,
            res.ids,
        )),
        !include_rp ==> res.resources is None,
{
    let ids = new_pack_ids();
    pack_info_texts_with(name, author, desc, include_rp, include_script, ids)
}

} // verus!
