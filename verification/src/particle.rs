//! The integer side of particle art: matching pixel colours to particle mappings, the
//! particle commands and their function files, and the script that plays them.
use vstd::prelude::*;
use vstd::string::*;

use crate::common::{plane_index, spec_plane_index};
use crate::generator::{function_files, function_texts, texts};
use crate::text::{nat_text, push_u64};

verus! {

/// A colour and the particle drawn for it.
pub struct ParticleMapping {
    pub r: u8,
    pub g: u8,
    pub b: u8,
    pub id: String,
}

/// How the particles are coloured: matched to the mappings, or one dust particle tinted
/// with each pixel's colour.
#[derive(Clone, Copy, PartialEq, Eq, Structural, Debug)]
pub enum ParticleMode {
    Match,
    Dust,
}

/// ASCII lower case of a character.
pub open spec fn ascii_lower(c: char) -> char {
    if 'A' <= c <= 'Z' {
        ((c as int) + 32) as char
    } else {
        c
    }
}

/// Whether two texts are equal ignoring ASCII case.
pub open spec fn eq_ignore_ascii_case(a: Seq<char>, b: Seq<char>) -> bool {
    a.len() == b.len() && forall|i: int| 0 <= i < a.len() ==> ascii_lower(#[trigger] a[i]) == ascii_lower(b[i])
}

/// `str::eq_ignore_ascii_case`: the two texts match once ASCII letters are taken in one
/// case, as the standard library documents it.
#[verifier::external_body]
fn same_ignoring_case(a: &str, b: &str) -> (res: bool)
    ensures
        res == eq_ignore_ascii_case(a@, b@),
{
    a.eq_ignore_ascii_case(b)
}

/// The mode for a request: commands sent to the game always match; otherwise `dust` in any
/// case picks dust.
pub open spec fn spec_particle_mode(use_socket: bool, generation_mode: Seq<char>) -> ParticleMode {
    if use_socket {
        ParticleMode::Match
    } else if eq_ignore_ascii_case(generation_mode, "dust"@) {
        ParticleMode::Dust
    } else {
        ParticleMode::Match
    }
}

/// How particles are chosen for a request.
pub fn particle_mode(use_socket: bool, generation_mode: &str) -> (res: ParticleMode)
    ensures
        res == spec_particle_mode(use_socket, generation_mode@),
{
    if use_socket {
        ParticleMode::Match
    } else if same_ignoring_case(generation_mode, "dust") {
        ParticleMode::Dust
    } else {
        ParticleMode::Match
    }
}

/// The city-block distance between a pixel and a mapping's colour.
pub open spec fn colour_distance(rgb: [u8; 3], m: ParticleMapping) -> int {
    let dr = rgb[0] - m.r;
    let dg = rgb[1] - m.g;
    let db = rgb[2] - m.b;
    (if dr < 0 {
        -dr
    } else {
        dr
    }) + (if dg < 0 {
        -dg
    } else {
        dg
    }) + (if db < 0 {
        -db
    } else {
        db
    })
}

/// The largest distance at which a pixel still matches a mapping.
pub const MATCH_DISTANCE: i32 = 30;

/// Mapping `k` is the one a pixel matches: within the match distance, no mapping nearer,
/// and none as near before it.
pub open spec fn is_best_mapping(rgb: [u8; 3], maps: Seq<ParticleMapping>, k: int) -> bool {
    &&& 0 <= k < maps.len()
    &&& colour_distance(rgb, maps[k]) <= MATCH_DISTANCE
    &&& forall|j: int| 0 <= j < maps.len() ==> colour_distance(rgb, #[trigger] maps[j]) >= colour_distance(rgb, maps[k])
    &&& forall|j: int| 0 <= j < k ==> colour_distance(rgb, #[trigger] maps[j]) > colour_distance(rgb, maps[k])
}

fn abs_diff(a: u8, b: u8) -> (res: i32)
    ensures
        res == (if a - b < 0 {
            b - a
        } else {
            a - b
        }),
{
    let d: i32 = a as i32 - b as i32;
    if d < 0 {
        -d
    } else {
        d
    }
}

/// The mapping a pixel matches, if any: the nearest within the match distance, the first of
/// equally near ones.
pub fn match_mapping(rgb: [u8; 3], mappings: &[ParticleMapping]) -> (res: Option<usize>)
    ensures
        match res {
            Some(k) => is_best_mapping(rgb, mappings@, k as int),
            None => forall|j: int|
                0 <= j < mappings@.len() ==> colour_distance(rgb, #[trigger] mappings@[j])
                    > MATCH_DISTANCE,
        },
{
    let mut best: Option<usize> = None;
    let mut mindist: i32 = i32::MAX;
    let mut i: usize = 0;
    while i < mappings.len()
        invariant
            i <= mappings@.len(),
            match best {
                Some(k) => k < i && mindist == colour_distance(rgb, mappings@[k as int])
                    && mindist <= MATCH_DISTANCE && (forall|j: int|
                    0 <= j < i ==> colour_distance(rgb, #[trigger] mappings@[j]) >= mindist) && (
                forall|j: int|
                    0 <= j < k ==> colour_distance(rgb, #[trigger] mappings@[j]) > mindist),
                None => mindist == i32::MAX && forall|j: int|
                    0 <= j < i ==> colour_distance(rgb, #[trigger] mappings@[j]) > MATCH_DISTANCE,
            },
        decreases mappings@.len() - i,
    {
        let m = &mappings[i];
        let dist: i32 = abs_diff(rgb[0], m.r) + abs_diff(rgb[1], m.g) + abs_diff(rgb[2], m.b);
        assert(dist == colour_distance(rgb, mappings@[i as int]));
        if dist <= MATCH_DISTANCE && dist < mindist {
            best = Some(i);
            mindist = dist;
        }
        i = i + 1;
    }
    best
}

/// The id of the particle drawn at a point: its mapping's, or the dust particle.
pub open spec fn spec_pid(mapping: Option<u16>, maps: Seq<ParticleMapping>) -> Seq<char> {
    match mapping {
        Some(i) => maps[i as int].id@,
        None => "comeix:dust"@,
    }
}

/// The particle id for a point: its mapping's id, or `comeix:dust` where it has none.
pub fn pid_of(mapping: Option<u16>, mappings: &[ParticleMapping]) -> (res: &str)
    requires
        mapping matches Some(i) ==> (i as int) < mappings@.len(),
    ensures
        res@ == spec_pid(mapping, mappings@),
{
    match mapping {
        Some(i) => mappings[i as usize].id.as_str(),
        None => {
            proof {
                reveal_strlit("comeix:dust");
            }
            "comeix:dust"
        },
    }
}

/// The command that draws one particle at a position relative to the player.
pub open spec fn particle_text(pid: Seq<char>, x: Seq<char>, y: Seq<char>, z: Seq<char>) -> Seq<
    char,
> {
    "particle "@ + pid + " ~"@ + x + " ~"@ + y + " ~"@ + z
}

/// The `particle` command for a point.
pub fn particle_command(pid: &str, x: &str, y: &str, z: &str) -> (res: String)
    ensures
        res@ == particle_text(pid@, x@, y@, z@),
{
    let mut s = String::new();
    s.append("particle ");
    s.append(pid);
    s.append(" ~");
    s.append(x);
    s.append(" ~");
    s.append(y);
    s.append(" ~");
    s.append(z);
    assert(s@ =~= particle_text(pid@, x@, y@, z@));
    s
}

/// The plane numbering particles use for `switch_xyz`: the image's plane named by the
/// request, mapped as xOy -> 1, xOz -> 0, yOz -> 2.
pub open spec fn spec_particle_plane(plane: Seq<char>) -> i32 {
    let p = spec_plane_index(plane);
    if p == 0 {
        1
    } else if p == 1 {
        0
    } else {
        2
    }
}

/// The plane particles are laid in for the plane a request names.
pub fn particle_plane(plane: &str) -> (res: i32)
    ensures
        res == spec_particle_plane(plane@),
{
    let p = plane_index(plane);
    if p == 0 {
        1
    } else if p == 1 {
        0
    } else {
        2
    }
}

/// The function files for particle lines: cut every 10000 lines, without an empty last
/// file.
pub open spec fn particle_files(lines: Seq<Seq<char>>) -> Seq<Seq<char>> {
    let f = function_files(lines, true);
    if f.last().len() == 0 {
        f.drop_last()
    } else {
        f
    }
}

/// The function files that hold the particle commands.
pub fn particle_function_texts(lines: &Vec<String>) -> (res: Vec<String>)
    ensures
        texts(res@) == particle_files(texts(lines@)),
{
    let mut files = function_texts(lines, true);
    proof {
        crate::generator::lemma_function_files_nonempty(texts(lines@), true);
    }
    let n = files.len();
    if files[n - 1].as_str().unicode_len() == 0 {
        let ghost before = files@;
        files.pop();
        assert(texts(files@) =~= texts(before).drop_last());
    }
    files
}

/// The script line that runs function `k`.
pub open spec fn run_line(k: nat) -> Seq<char> {
    "\tentity.runCommand('function output_"@ + nat_text(k) + "');"@
}

/// The lines that run functions `0..n`, one per line.
pub open spec fn match_run_lines(n: nat) -> Seq<char>
    decreases n,
{
    if n == 0 {
        Seq::<char>::empty()
    } else if n == 1 {
        run_line(0)
    } else {
        match_run_lines((n - 1) as nat) + "\n"@ + run_line((n - 1) as nat)
    }
}

pub open spec fn match_script_head() -> Seq<char> {
    "import * as Server from '@minecraft/server';\n\nfunction paint(entity, tickDelay) {\n  if (!entity.isValid) return;\n"@
}

pub open spec fn match_script_tail() -> Seq<char> {
    "\n  Server.system.runTimeout(() => paint(entity, tickDelay), tickDelay);\n}\n\nServer.system.runInterval(() => {\n  const entities = Server.world.getDimension('overworld').getEntities();\n  for (let entity of entities) {\n    if (entity.nameTag.startsWith('particle:') && !entity.hasTag('particled')) {\n      const tickDelay = Number(entity.nameTag.split(':')[1]);\n      entity.addTag('particled');\n      entity.addEffect('invisibility', 99999, { showParticles: false });\n      paint(entity, tickDelay);\n    }\n  }\n});\n"@
}

/// The script that replays the `n` particle functions on each tagged entity.
pub open spec fn match_script(n: nat) -> Seq<char> {
    match_script_head() + match_run_lines(n) + match_script_tail()
}

/// The script that runs the particle function files.
pub fn match_script_text(file_count: usize) -> (res: String)
    ensures
        res@ == match_script(file_count as nat),
{
    let mut runs = String::new();
    let mut i: usize = 0;
    while i < file_count
        invariant
            i <= file_count,
            runs@ == match_run_lines(i as nat),
        decreases file_count - i,
    {
        let ghost before = runs@;
        if i > 0 {
            runs.append("\n");
        }
        runs.append("\tentity.runCommand('function output_");
        push_u64(&mut runs, i as u64);
        runs.append("');");
        proof {
            if i == 0 {
                assert(runs@ =~= match_run_lines(1));
            } else {
                assert(runs@ =~= match_run_lines(i as nat) + "\n"@ + run_line(i as nat));
            }
        }
        i = i + 1;
    }
    let mut s = String::new();
    s.append(
        "import * as Server from '@minecraft/server';\n\nfunction paint(entity, tickDelay) {\n  if (!entity.isValid) return;\n",
    );
    s.append(runs.as_str());
    s.append(
        "\n  Server.system.runTimeout(() => paint(entity, tickDelay), tickDelay);\n}\n\nServer.system.runInterval(() => {\n  const entities = Server.world.getDimension('overworld').getEntities();\n  for (let entity of entities) {\n    if (entity.nameTag.startsWith('particle:') && !entity.hasTag('particled')) {\n      const tickDelay = Number(entity.nameTag.split(':')[1]);\n      entity.addTag('particled');\n      entity.addEffect('invisibility', 99999, { showParticles: false });\n      paint(entity, tickDelay);\n    }\n  }\n});\n",
    );
    assert(s@ =~= match_script(file_count as nat));
    s
}

/// A particle id with its namespace colons turned into dots.
pub open spec fn dotted(id: Seq<char>) -> Seq<char> {
    id.map_values(|c: char| if c == ':' {
        '.'
    } else {
        c
    })
}

/// The file that defines a matched particle: its id, colons turned into dots, then `.json`.
pub fn particle_file_name(id: &str) -> (res: String)
    ensures
        res@ == dotted(id@) + ".json"@,
{
    let n = id.unicode_len();
    let mut out = String::new();
    let mut start: usize = 0;
    let mut i: usize = 0;
    while i < n
        invariant
            n == id@.len(),
            start <= i <= n,
            out@ == dotted(id@.take(start as int)),
            forall|j: int| start <= j < i ==> id@[j] != ':',
        decreases n - i,
    {
        if id.get_char(i) == ':' {
            let piece = id.substring_char(start, i);
            let ghost before = out@;
            out.append(piece);
            out.append(".");
            proof {
                reveal_strlit(".");
                assert(id@.take(i + 1) =~= id@.take(start as int) + piece@ + seq![':']);
                assert(dotted(piece@) =~= piece@);
                assert(dotted(id@.take(i + 1)) =~= dotted(id@.take(start as int)) + dotted(piece@)
                    + dotted(seq![':']));
                assert(dotted(seq![':']) =~= "."@);
                assert(out@ =~= dotted(id@.take(i + 1)));
            }
            start = i + 1;
        }
        i = i + 1;
    }
    let last = id.substring_char(start, n);
    out.append(last);
    proof {
        assert(id@ =~= id@.take(start as int) + last@);
        assert(dotted(last@) =~= last@);
        assert(dotted(id@) =~= dotted(id@.take(start as int)) + dotted(last@));
    }
    out.append(".json");
    out
}

} // verus!
