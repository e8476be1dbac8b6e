use vstd::prelude::*;
use crate::json::{lemma_json_fields, json_fields, Json, JsonValue};
use crate::node_registry::{lemma_find_kind_from, registered, Artifact, NodeContext, NodeExecutor, NodeOutput, NodeRegistry};
use crate::paths::{
    extension, extension_spec, file_name, file_name_spec, file_stem, file_stem_spec, join, join_spec, last_index_of,
    last_segment, lemma_last_index_pub, parent, parent_spec, segment_start, split_dot, trim_end, trimmed_len,
    with_extension, with_extension_spec,
};
use crate::text::{concat, eq_ignore_ascii_case, eq_ignore_case, owned, replace_all, replaced, starts_with, str_eq, strip_prefix};

verus! {

// ---------------------------------------------------------------------------
// Node parameters
// ---------------------------------------------------------------------------

/// The value under `key` among `fields`, looking from position `k` on.
pub open spec fn field_from(fields: Seq<(Seq<char>, Json)>, key: Seq<char>, k: int) -> Option<Json>
    decreases fields.len() - k,
{
    if k < 0 || k >= fields.len() {
        None
    } else if fields[k].0 == key {
        Some(fields[k].1)
    } else {
        field_from(fields, key, k + 1)
    }
}

/// The value under `key` in the object `v`; none when `v` is no object or lacks the key.
pub open spec fn get_field(v: Json, key: Seq<char>) -> Option<Json> {
    match v {
        Json::Object(fields) => field_from(fields, key, 0),
        _ => None,
    }
}

/// The string under `key` in `v`, if that is a string (`params[key].as_str()`).
pub open spec fn str_param(v: Json, key: Seq<char>) -> Option<Seq<char>> {
    match get_field(v, key) {
        Some(Json::Str(s)) => Some(s),
        _ => None,
    }
}

pub open spec fn or_seq(o: Option<Seq<char>>, d: Seq<char>) -> Seq<char> {
    match o {
        Some(s) => s,
        None => d,
    }
}

/// The string under `key` in `params`, if there is one.
pub fn param_str(params: &JsonValue, key: &str) -> (r: Option<String>)
    ensures
        match str_param(params@, key@) {
            Some(s) => r matches Some(x) && x@ == s,
            None => r is None,
        },
{
    match params {
        JsonValue::Object(fields) => {
            proof {
                lemma_json_fields(fields@);
            }
            let ghost f = json_fields(fields@);
            let mut i: usize = 0;
            while i < fields.len()
                invariant
                    i <= fields@.len(),
                    f == json_fields(fields@),
                    f.len() == fields@.len(),
                    forall|k: int| 0 <= k < fields@.len() ==> #[trigger] f[k] == (fields@[k].0@, fields@[k].1@),
                    params@ == Json::Object(f),
                    field_from(f, key@, 0) == field_from(f, key@, i as int),
                decreases fields@.len() - i,
            {
                if str_eq(fields[i].0.as_str(), key) {
                    return match &fields[i].1 {
                        JsonValue::Str(s) => Some(owned(s.as_str())),
                        _ => None,
                    };
                }
                i += 1;
            }
            None
        },
        _ => None,
    }
}

// ---------------------------------------------------------------------------
// Home directory
// ---------------------------------------------------------------------------

/// The user's home directory, from `dirs::home_dir`, as text. It depends on the
/// environment, so nothing is claimed of it. The library holds paths as UTF-8 text: a
/// home directory whose name is not valid UTF-8 is converted lossily
/// (`to_string_lossy`), each invalid sequence becoming U+FFFD.
#[verifier::external_body]
pub(crate) fn home_dir() -> Option<String> {
    match dirs::home_dir() {
        Some(p) => Some(p.to_string_lossy().into_owned()),
        None => None,
    }
}

/// `p` with a leading `~/` replaced by the home directory `home`; `p` itself when it
/// has no such prefix or when no home directory is known.
pub open spec fn expand_home_spec(p: Seq<char>, home: Option<Seq<char>>) -> Seq<char> {
    if starts_with(p, "~/"@) && home is Some {
        join_spec(home.unwrap(), p.subrange("~/"@.len() as int, p.len() as int))
    } else {
        p
    }
}

/// `p` with a leading `~/` replaced by the home directory `home`.
pub fn expand_home_with(p: &str, home: Option<&str>) -> (r: String)
    ensures
        r@ == expand_home_spec(p@, match home { Some(h) => Some(h@), None => None }),
{
    match strip_prefix(p, "~/") {
        Some(rest) => match home {
            Some(h) => join(h, rest.as_str()),
            None => owned(p),
        },
        None => owned(p),
    }
}

/// `p` with a leading `~/` replaced by the user's home directory, where one is known.
pub fn expand_home(p: &str) -> (r: String)
    ensures
        !starts_with(p@, "~/"@) ==> r@ == p@,
        starts_with(p@, "~/"@) ==> exists|h: Option<Seq<char>>| r@ == #[trigger] expand_home_spec(p@, h),
{
    if strip_prefix(p, "~/").is_some() {
        let home = home_dir();
        let r = match &home {
            Some(h) => expand_home_with(p, Some(h.as_str())),
            None => expand_home_with(p, None),
        };
        proof {
            let h = match home { Some(h) => Some(h@), None => None };
            assert(r@ == expand_home_spec(p@, h));
        }
        r
    } else {
        owned(p)
    }
}

// ---------------------------------------------------------------------------
// Outputs
// ---------------------------------------------------------------------------

/// The output of a node that produced the file at `path`.
pub fn file_output(path: String) -> (r: NodeOutput)
    ensures
        r.artifacts@.len() == 1,
        r.artifacts@[0].kind@ == "file"@,
        r.artifacts@[0].path matches Some(p) && p@ == path@,
        r.artifacts@[0].url is None,
{
    let a = Artifact { kind: owned("file"), path: Some(path), url: None };
    let mut v = Vec::new();
    v.push(a);
    NodeOutput { artifacts: v }
}

/// The output of a node that reached the link `url`.
pub fn link_output(url: String) -> (r: NodeOutput)
    ensures
        r.artifacts@.len() == 1,
        r.artifacts@[0].kind@ == "link"@,
        r.artifacts@[0].path is None,
        r.artifacts@[0].url matches Some(u) && u@ == url@,
{
    let a = Artifact { kind: owned("link"), path: None, url: Some(url) };
    let mut v = Vec::new();
    v.push(a);
    NodeOutput { artifacts: v }
}

pub open spec fn source_missing_message(work: Seq<char>) -> Seq<char> {
    "source file not found: "@ + work
}

// ---------------------------------------------------------------------------
// Copy and move
// ---------------------------------------------------------------------------

/// A file that a copy or move node places into a directory.
pub struct Transfer {
    /// The file taken.
    pub src: String,
    /// The directory it goes to (created where missing).
    pub dest_dir: String,
    /// Where it lands: the directory joined with the file's name.
    pub dest_file: String,
}

/// Where the file of `work` lands in `dest_dir`.
pub open spec fn placed_file(dest_dir: Seq<char>, work: Seq<char>) -> Seq<char> {
    join_spec(dest_dir, or_seq(file_name_spec(work), Seq::empty()))
}

/// A transfer or an error message, seen as text.
pub open spec fn transfer_view(r: Result<Transfer, String>) -> Result<(Seq<char>, Seq<char>, Seq<char>), Seq<char>> {
    match r {
        Ok(t) => Ok((t.src@, t.dest_dir@, t.dest_file@)),
        Err(m) => Err(m@),
    }
}

/// What a copy node does with the file of `work`, given its parameters, the home
/// directory and whether the file exists.
pub open spec fn copy_outcome(work: Seq<char>, params: Json, home: Option<Seq<char>>, src_exists: bool)
    -> Result<(Seq<char>, Seq<char>, Seq<char>), Seq<char>>
{
    match str_param(params, "dest"@) {
        None => Err("copy node: missing 'dest' param"@),
        Some(d) => if starts_with(d, "~/"@) && home is None {
            Err("cannot resolve home dir"@)
        } else if !src_exists {
            Err(source_missing_message(work))
        } else {
            let dir = expand_home_spec(d, home);
            Ok((work, dir, placed_file(dir, work)))
        },
    }
}

/// What a move node does with the file of `work`. Without a home directory a
/// `~/` destination is taken literally.
pub open spec fn move_outcome(work: Seq<char>, params: Json, home: Option<Seq<char>>, src_exists: bool)
    -> Result<(Seq<char>, Seq<char>, Seq<char>), Seq<char>>
{
    match str_param(params, "dest"@) {
        None => Err("move node: missing 'dest' param"@),
        Some(d) => if !src_exists {
            Err(source_missing_message(work))
        } else {
            let dir = expand_home_spec(d, home);
            Ok((work, dir, placed_file(dir, work)))
        },
    }
}

fn opt_view(o: &Option<String>) -> (r: Option<&str>)
    ensures
        match o {
            Some(s) => r matches Some(x) && x@ == s@,
            None => r is None,
        },
{
    match o {
        Some(s) => Some(s.as_str()),
        None => None,
    }
}

pub open spec fn opt_seq(o: Option<String>) -> Option<Seq<char>> {
    match o {
        Some(s) => Some(s@),
        None => None,
    }
}

fn transfer(work: &str, dest_dir: String) -> (r: Transfer)
    ensures
        r.src@ == work@,
        r.dest_dir@ == dest_dir@,
        r.dest_file@ == placed_file(dest_dir@, work@),
{
    proof {
        reveal_strlit("");
    }
    let name = match file_name(work) {
        Some(n) => n,
        None => owned(""),
    };
    let dest_file = join(dest_dir.as_str(), name.as_str());
    Transfer { src: owned(work), dest_dir, dest_file }
}

/// The transfer a copy node makes, given the home directory and whether the file exists.
pub fn copy_transfer(ctx: &NodeContext, params: &JsonValue, home: Option<&str>, src_exists: bool) -> (r: Result<Transfer, String>)
    ensures
        transfer_view(r) == copy_outcome(ctx.work_dir@, params@, match home { Some(h) => Some(h@), None => None }, src_exists),
{
    let dest = match param_str(params, "dest") {
        Some(d) => d,
        None => return Err(owned("copy node: missing 'dest' param")),
    };
    if strip_prefix(dest.as_str(), "~/").is_some() && home.is_none() {
        return Err(owned("cannot resolve home dir"));
    }
    if !src_exists {
        return Err(concat("source file not found: ", ctx.work_dir.as_str()));
    }
    let dir = expand_home_with(dest.as_str(), home);
    Ok(transfer(ctx.work_dir.as_str(), dir))
}

/// The transfer a move node makes, given the home directory and whether the file exists.
pub fn move_transfer(ctx: &NodeContext, params: &JsonValue, home: Option<&str>, src_exists: bool) -> (r: Result<Transfer, String>)
    ensures
        transfer_view(r) == move_outcome(ctx.work_dir@, params@, match home { Some(h) => Some(h@), None => None }, src_exists),
{
    let dest = match param_str(params, "dest") {
        Some(d) => d,
        None => return Err(owned("move node: missing 'dest' param")),
    };
    if !src_exists {
        return Err(concat("source file not found: ", ctx.work_dir.as_str()));
    }
    let dir = expand_home_with(dest.as_str(), home);
    Ok(transfer(ctx.work_dir.as_str(), dir))
}

/// Copies the file of a run into the directory named by the `dest` parameter,
/// keeping the original.
pub struct CopyNode;

impl NodeExecutor for CopyNode {
    open spec fn kind_spec(&self) -> Seq<char> {
        "copy"@
    }

    fn kind(&self) -> (r: &'static str) {
        "copy"
    }
}

impl CopyNode {
    /// The transfer this node makes, looking up the home directory where the
    /// destination starts with `~/`.
    pub fn plan(&self, ctx: &NodeContext, params: &JsonValue, src_exists: bool) -> (r: Result<Transfer, String>)
        ensures
            exists|h: Option<Seq<char>>| transfer_view(r) == #[trigger] copy_outcome(ctx.work_dir@, params@, h, src_exists),
            (match str_param(params@, "dest"@) {
                Some(d) => !starts_with(d, "~/"@),
                None => true,
            }) ==> transfer_view(r) == copy_outcome(ctx.work_dir@, params@, None, src_exists),
    {
        let home = match param_str(params, "dest") {
            Some(d) => if strip_prefix(d.as_str(), "~/").is_some() {
                home_dir()
            } else {
                None
            },
            None => None,
        };
        let r = copy_transfer(ctx, params, opt_view(&home), src_exists);
        proof {
            assert(transfer_view(r) == copy_outcome(ctx.work_dir@, params@, opt_seq(home), src_exists));
        }
        r
    }
}

/// Moves the file of a run into the directory named by the `dest` parameter.
pub struct MoveNode;

impl NodeExecutor for MoveNode {
    open spec fn kind_spec(&self) -> Seq<char> {
        "move"@
    }

    fn kind(&self) -> (r: &'static str) {
        "move"
    }
}

impl MoveNode {
    /// The transfer this node makes, looking up the home directory where the
    /// destination starts with `~/`.
    pub fn plan(&self, ctx: &NodeContext, params: &JsonValue, src_exists: bool) -> (r: Result<Transfer, String>)
        ensures
            exists|h: Option<Seq<char>>| transfer_view(r) == #[trigger] move_outcome(ctx.work_dir@, params@, h, src_exists),
            (match str_param(params@, "dest"@) {
                Some(d) => !starts_with(d, "~/"@),
                None => true,
            }) ==> transfer_view(r) == move_outcome(ctx.work_dir@, params@, None, src_exists),
    {
        let home = match param_str(params, "dest") {
            Some(d) => if strip_prefix(d.as_str(), "~/").is_some() {
                home_dir()
            } else {
                None
            },
            None => None,
        };
        let r = move_transfer(ctx, params, opt_view(&home), src_exists);
        proof {
            assert(transfer_view(r) == move_outcome(ctx.work_dir@, params@, opt_seq(home), src_exists));
        }
        r
    }
}

// ---------------------------------------------------------------------------
// Rename
// ---------------------------------------------------------------------------

/// The name pattern of a rename node when its parameters give none.
pub open spec fn default_pattern() -> Seq<char> {
    "{name}.{ext}"@
}

/// The new name for the file of `work`: the pattern with `{name}`, `{ext}` and
/// `{date}` replaced, in that order.
pub open spec fn renamed_name(work: Seq<char>, pattern: Seq<char>, date: Seq<char>) -> Seq<char> {
    replaced(
        replaced(replaced(pattern, "{name}"@, or_seq(file_stem_spec(work), Seq::empty())), "{ext}"@,
            or_seq(extension_spec(work), Seq::empty())),
        "{date}"@,
        date,
    )
}

/// Where a rename node puts the file of `work`: beside it, under its new name.
pub open spec fn rename_outcome(work: Seq<char>, params: Json, src_exists: bool, date: Seq<char>) -> Result<Seq<char>, Seq<char>> {
    if !src_exists {
        Err(source_missing_message(work))
    } else {
        let pattern = or_seq(str_param(params, "pattern"@), default_pattern());
        Ok(join_spec(or_seq(parent_spec(work), seq!['.']), renamed_name(work, pattern, date)))
    }
}

pub open spec fn path_view(r: Result<String, String>) -> Result<Seq<char>, Seq<char>> {
    match r {
        Ok(p) => Ok(p@),
        Err(m) => Err(m@),
    }
}

/// The new path of the file, given whether it exists and the date (`YYYY-MM-DD`).
pub fn rename_target(ctx: &NodeContext, params: &JsonValue, src_exists: bool, date: &str) -> (r: Result<String, String>)
    ensures
        path_view(r) == rename_outcome(ctx.work_dir@, params@, src_exists, date@),
{
    let pattern = match param_str(params, "pattern") {
        Some(p) => p,
        None => owned("{name}.{ext}"),
    };
    if !src_exists {
        return Err(concat("source file not found: ", ctx.work_dir.as_str()));
    }
    let work = ctx.work_dir.as_str();
    proof {
        reveal_strlit("");
    }
    let stem = match file_stem(work) {
        Some(s) => s,
        None => owned(""),
    };
    let ext = match extension(work) {
        Some(e) => e,
        None => owned(""),
    };
    proof {
        reveal_strlit("{name}");
        reveal_strlit("{ext}");
        reveal_strlit("{date}");
    }
    let a = replace_all(pattern.as_str(), "{name}", stem.as_str());
    let b = replace_all(a.as_str(), "{ext}", ext.as_str());
    let new_name = replace_all(b.as_str(), "{date}", date);
    let dir = match parent(work) {
        Some(p) => p,
        None => owned("."),
    };
    proof {
        reveal_strlit(".");
        assert(dir@ == or_seq(parent_spec(work@), seq!['.']));
        assert(pattern@ == or_seq(str_param(params@, "pattern"@), default_pattern()));
        assert(stem@ == or_seq(file_stem_spec(work@), Seq::empty()));
        assert(ext@ == or_seq(extension_spec(work@), Seq::empty()));
        assert(a@ == replaced(pattern@, "{name}"@, or_seq(file_stem_spec(work@), Seq::empty())));
        assert(new_name@ == renamed_name(work@, pattern@, date@));
    }
    Ok(join(dir.as_str(), new_name.as_str()))
}

/// Renames the file of a run by the `pattern` parameter.
pub struct RenameNode;

impl NodeExecutor for RenameNode {
    open spec fn kind_spec(&self) -> Seq<char> {
        "rename"@
    }

    fn kind(&self) -> (r: &'static str) {
        "rename"
    }
}

impl RenameNode {
    /// The new path of the file, where `date` is today's local date (`YYYY-MM-DD`). The
    /// caller reads that date: it takes the time zone from the environment and the
    /// system's zone file.
    pub fn plan(&self, ctx: &NodeContext, params: &JsonValue, src_exists: bool, date: &str) -> (r: Result<String, String>)
        ensures
            path_view(r) == rename_outcome(ctx.work_dir@, params@, src_exists, date@),
    {
        rename_target(ctx, params, src_exists, date)
    }
}

// ---------------------------------------------------------------------------
// Transcode
// ---------------------------------------------------------------------------

/// The preset of a transcode node when its parameters give none.
pub open spec fn default_preset() -> Seq<char> {
    "h265_1080p"@
}

/// The encoder arguments of the `h265_1080p` preset.
pub open spec fn h265_1080p_args() -> Seq<Seq<char>> {
    seq![
        "-c:v"@, "libx265"@, "-crf"@, "28"@, "-preset"@, "medium"@, "-vf"@, "scale=-2:1080"@, "-c:a"@, "aac"@,
        "-b:a"@, "128k"@,
    ]
}

pub open spec fn unknown_preset_message(preset: Seq<char>) -> Seq<char> {
    "transcode node: unknown preset '"@ + preset + "'"@
}

pub open spec fn strs_view(v: Seq<&'static str>) -> Seq<Seq<char>> {
    v.map_values(|s: &'static str| s@)
}

/// The ffmpeg encoder arguments for `preset`: flags, each followed by its value.
pub fn ffmpeg_args_for_preset(preset: &str) -> (r: Result<Vec<&'static str>, String>)
    ensures
        match r {
            Ok(v) => preset@ == default_preset() && strs_view(v@) == h265_1080p_args(),
            Err(m) => preset@ != default_preset() && m@ == unknown_preset_message(preset@),
        },
        r is Ok ==> forall|i: int| 0 <= i < r->Ok_0@.len() ==> (#[trigger] r->Ok_0@[i])@.len() > 0
            && ((r->Ok_0@[i]@[0] == '-') <==> i % 2 == 0),
{
    if str_eq(preset, "h265_1080p") {
        let v = vec![
            "-c:v", "libx265", "-crf", "28", "-preset", "medium", "-vf", "scale=-2:1080", "-c:a", "aac", "-b:a",
            "128k",
        ];
        proof {
            assert(strs_view(v@) =~= h265_1080p_args());
            reveal_strlit("-c:v");
            reveal_strlit("libx265");
            reveal_strlit("-crf");
            reveal_strlit("28");
            reveal_strlit("-preset");
            reveal_strlit("medium");
            reveal_strlit("-vf");
            reveal_strlit("scale=-2:1080");
            reveal_strlit("-c:a");
            reveal_strlit("aac");
            reveal_strlit("-b:a");
            reveal_strlit("128k");
            assert forall|i: int| 0 <= i < v@.len() implies (#[trigger] v@[i])@.len() > 0
                && ((v@[i]@[0] == '-') <==> i % 2 == 0) by {
                assert(v@[i]@ == h265_1080p_args()[i]);
            }
        }
        Ok(v)
    } else {
        let a = concat("transcode node: unknown preset '", preset);
        Err(concat(a.as_str(), "'"))
    }
}

/// An ffmpeg run that a transcode node makes.
pub struct TranscodeJob {
    /// The file written.
    pub output: String,
    /// The arguments handed to ffmpeg.
    pub args: Vec<String>,
}

/// Where a transcode node writes: the same path with the extension `mp4`, or, for a
/// file that is already `.mp4` (in any case), `<stem>_transcoded.mp4` beside it.
pub open spec fn transcode_output(work: Seq<char>) -> Seq<char> {
    if eq_ignore_case(or_seq(extension_spec(work), Seq::empty()), "mp4"@) {
        join_spec(or_seq(parent_spec(work), seq!['.']), or_seq(file_stem_spec(work), "output"@) + "_transcoded.mp4"@)
    } else {
        with_extension_spec(work, "mp4"@)
    }
}

/// A path made of `x` and then `rest`, where `x` is empty or ends in a separator and
/// `rest` holds none and ends in neither a separator nor a dot, has `rest` as its last
/// component, which starts right after `x`.
proof fn lemma_last_component(x: Seq<char>, rest: Seq<char>)
    requires
        x.len() == 0 || x.last() == '/',
        rest.len() > 0,
        forall|i: int| 0 <= i < rest.len() ==> #[trigger] rest[i] != '/',
        rest.last() != '/' && rest.last() != '.',
    ensures
        trim_end(x + rest) == x + rest,
        segment_start(x + rest) == x.len(),
        last_segment(x + rest) == rest,
{
    let p = x + rest;
    assert(p[p.len() - 1] == rest.last());
    assert(trimmed_len(p, p.len() as int) == p.len());
    assert(trim_end(p) =~= p);
    lemma_last_index_pub(p, '/', p.len() as int);
    let k = last_index_of(p, '/', p.len() as int);
    assert forall|j: int| x.len() <= j < p.len() implies p[j] != '/' by {
        assert(p[j] == rest[j - x.len()]);
    }
    if x.len() > 0 {
        assert(p[x.len() - 1] == '/');
        assert(k == x.len() - 1);
    } else {
        assert(k == -1);
    }
    assert(p.subrange(x.len() as int, p.len() as int) =~= rest);
}

/// The characters of the last component of a path hold no separator.
proof fn lemma_component_has_no_separator(w: Seq<char>)
    ensures
        forall|i: int| 0 <= i < last_segment(w).len() ==> #[trigger] last_segment(w)[i] != '/',
{
    let t = trim_end(w);
    crate::paths::lemma_trimmed_len_pub(w, w.len() as int);
    lemma_last_index_pub(t, '/', t.len() as int);
    assert forall|i: int| 0 <= i < last_segment(w).len() implies #[trigger] last_segment(w)[i] != '/' by {
        assert(last_segment(w)[i] == t[segment_start(w) + i]);
    }
}

/// `join_spec(base, rest)`, for a `rest` that does not start with a separator, is `rest`
/// after a prefix that is empty or ends in a separator.
proof fn lemma_join_shape(base: Seq<char>, rest: Seq<char>) -> (x: Seq<char>)
    requires
        rest.len() > 0,
        rest[0] != '/',
    ensures
        x.len() == 0 || x.last() == '/',
        join_spec(base, rest) == x + rest,
{
    if base.len() == 0 {
        assert(Seq::<char>::empty() + rest =~= rest);
        Seq::empty()
    } else if base.last() == '/' {
        base
    } else {
        let x = base + seq!['/'];
        assert(x + rest =~= base + seq!['/'] + rest);
        x
    }
}

/// A transcode never writes over the file it reads: for every input path that names a
/// file, the output path differs from it.
pub proof fn law_transcode_output_is_new(work: Seq<char>)
    requires
        file_name_spec(work) is Some,
    ensures
        transcode_output(work) != work,
{
    let n = last_segment(work);
    let t = trim_end(work);
    let sst = segment_start(work);
    crate::paths::lemma_trimmed_len_pub(work, work.len() as int);
    lemma_last_index_pub(t, '/', t.len() as int);
    lemma_component_has_no_separator(work);
    lemma_last_index_pub(n, '.', n.len() as int);
    let d = last_index_of(n, '.', n.len() as int);
    let o = transcode_output(work);
    if o == work {
        if eq_ignore_case(or_seq(extension_spec(work), Seq::empty()), "mp4"@) {
            reveal_strlit("mp4");
            reveal_strlit("_transcoded.mp4");
            let stem = n.subrange(0, d);
            let rest = stem + "_transcoded.mp4"@;
            assert(file_stem_spec(work) == Some(stem));
            assert(rest[0] == n[0]);
            assert forall|i: int| 0 <= i < rest.len() implies #[trigger] rest[i] != '/' by {
                if i < stem.len() {
                    assert(rest[i] == n[i]);
                }
            }
            let x = lemma_join_shape(or_seq(parent_spec(work), seq!['.']), rest);
            lemma_last_component(x, rest);
            assert(last_segment(o) == n);
            assert(n.len() == d + 4);
            assert(rest.len() == d + 15);
        } else {
            reveal_strlit("mp4");
            let stem = split_dot(n).0;
            let base = t.subrange(0, sst + stem.len());
            assert(o == base + seq!['.'] + "mp4"@);
            assert(o.last() == '4');
            assert(work[work.len() - 1] == '4');
            assert(trimmed_len(work, work.len() as int) == work.len());
            assert(t =~= work);
            assert(n.len() == stem.len() + 4);
            if d > 0 {
                let e = n.subrange(d + 1, n.len() as int);
                assert forall|i: int| 0 <= i < 3 implies e[i] == "mp4"@[i] by {
                    assert(e[i] == work[sst + d + 1 + i]);
                    assert(o[sst + d + 1 + i] == "mp4"@[i]);
                }
                assert(e =~= "mp4"@);
                assert(extension_spec(work) == Some(e));
                assert(eq_ignore_case(e, "mp4"@));
            }
        }
    }
}

/// A file whose extension is `mp4`, in any case, is transcoded to `<stem>_transcoded.mp4`
/// in its own folder (`.` when it has none), and that is the output's file name.
pub proof fn law_transcode_mp4_output(work: Seq<char>)
    requires
        extension_spec(work) matches Some(e) && eq_ignore_case(e, "mp4"@),
    ensures
        transcode_output(work) == join_spec(
            or_seq(parent_spec(work), seq!['.']),
            file_stem_spec(work)->0 + "_transcoded.mp4"@,
        ),
        file_name_spec(transcode_output(work)) == Some(file_stem_spec(work)->0 + "_transcoded.mp4"@),
{
    reveal_strlit("_transcoded.mp4");
    let n = last_segment(work);
    lemma_component_has_no_separator(work);
    lemma_last_index_pub(n, '.', n.len() as int);
    let d = last_index_of(n, '.', n.len() as int);
    let stem = n.subrange(0, d);
    let rest = stem + "_transcoded.mp4"@;
    assert(file_stem_spec(work) == Some(stem));
    assert(rest[0] == n[0]);
    assert forall|i: int| 0 <= i < rest.len() implies #[trigger] rest[i] != '/' by {
        if i < stem.len() {
            assert(rest[i] == n[i]);
        }
    }
    let x = lemma_join_shape(or_seq(parent_spec(work), seq!['.']), rest);
    lemma_last_component(x, rest);
    assert(rest.last() == '4');
}

/// The arguments of the ffmpeg run: the input, the encoder arguments, overwrite, the output.
pub open spec fn transcode_args(work: Seq<char>, codec: Seq<Seq<char>>, output: Seq<char>) -> Seq<Seq<char>> {
    seq!["-i"@, work] + codec + seq!["-y"@, output]
}

/// What a transcode node does with the file of `work`.
pub open spec fn transcode_outcome(work: Seq<char>, params: Json, ffmpeg_available: bool, src_exists: bool)
    -> Result<(Seq<char>, Seq<Seq<char>>), Seq<char>>
{
    let preset = or_seq(str_param(params, "preset"@), default_preset());
    if !ffmpeg_available {
        Err("transcode node: ffmpeg is not installed or not in PATH"@)
    } else if !src_exists {
        Err(source_missing_message(work))
    } else if preset != default_preset() {
        Err(unknown_preset_message(preset))
    } else {
        let out = transcode_output(work);
        Ok((out, transcode_args(work, h265_1080p_args(), out)))
    }
}

pub open spec fn job_view(r: Result<TranscodeJob, String>) -> Result<(Seq<char>, Seq<Seq<char>>), Seq<char>> {
    match r {
        Ok(j) => Ok((j.output@, j.args@.map_values(|s: String| s@))),
        Err(m) => Err(m@),
    }
}

fn push_str(v: &mut Vec<String>, s: &str)
    ensures
        final(v)@.map_values(|x: String| x@) == old(v)@.map_values(|x: String| x@).push(s@),
{
    v.push(owned(s));
    proof {
        assert(final(v)@.map_values(|x: String| x@) =~= old(v)@.map_values(|x: String| x@).push(s@));
    }
}

/// Converts a `&'static str` to a `&str` of the same text.
fn as_str_ref(s: &'static str) -> (r: &str)
    ensures
        r@ == s@,
{
    s
}

fn transcode_output_path(work: &str) -> (r: String)
    ensures
        r@ == transcode_output(work@),
{
    proof {
        reveal_strlit("");
    }
    let ext = match extension(work) {
        Some(e) => e,
        None => owned(""),
    };
    if eq_ignore_ascii_case(ext.as_str(), "mp4") {
        let stem = match file_stem(work) {
            Some(s) => s,
            None => owned("output"),
        };
        let dir = match parent(work) {
            Some(p) => p,
            None => owned("."),
        };
        proof {
            reveal_strlit(".");
        }
        let name = concat(stem.as_str(), "_transcoded.mp4");
        join(dir.as_str(), name.as_str())
    } else {
        with_extension(work, "mp4")
    }
}

/// The ffmpeg run a transcode node makes, given whether ffmpeg can be run and
/// whether the file exists.
pub fn transcode_job(ctx: &NodeContext, params: &JsonValue, ffmpeg_available: bool, src_exists: bool) -> (r: Result<TranscodeJob, String>)
    ensures
        job_view(r) == transcode_outcome(ctx.work_dir@, params@, ffmpeg_available, src_exists),
{
    if !ffmpeg_available {
        return Err(owned("transcode node: ffmpeg is not installed or not in PATH"));
    }
    let preset = match param_str(params, "preset") {
        Some(p) => p,
        None => owned("h265_1080p"),
    };
    if !src_exists {
        return Err(concat("source file not found: ", ctx.work_dir.as_str()));
    }
    let work = ctx.work_dir.as_str();
    let output = transcode_output_path(work);
    let codec = match ffmpeg_args_for_preset(preset.as_str()) {
        Ok(c) => c,
        Err(m) => return Err(m),
    };
    let mut args: Vec<String> = Vec::new();
    push_str(&mut args, "-i");
    push_str(&mut args, work);
    let mut i: usize = 0;
    while i < codec.len()
        invariant
            i <= codec@.len(),
            args@.map_values(|x: String| x@) == seq!["-i"@, work@] + strs_view(codec@).subrange(0, i as int),
        decreases codec@.len() - i,
    {
        push_str(&mut args, as_str_ref(codec[i]));
        proof {
            assert(strs_view(codec@).subrange(0, i as int + 1) =~= strs_view(codec@).subrange(0, i as int).push(codec@[i as int]@));
        }
        i += 1;
    }
    push_str(&mut args, "-y");
    push_str(&mut args, output.as_str());
    proof {
        assert(strs_view(codec@).subrange(0, codec@.len() as int) =~= strs_view(codec@));
        assert(args@.map_values(|x: String| x@) =~= transcode_args(work@, h265_1080p_args(), output@));
    }
    Ok(TranscodeJob { output, args })
}

/// Re-encodes the file of a run with ffmpeg by the `preset` parameter.
pub struct TranscodeNode;

impl NodeExecutor for TranscodeNode {
    open spec fn kind_spec(&self) -> Seq<char> {
        "transcode"@
    }

    fn kind(&self) -> (r: &'static str) {
        "transcode"
    }
}

impl TranscodeNode {
    /// The ffmpeg run this node makes.
    pub fn plan(&self, ctx: &NodeContext, params: &JsonValue, ffmpeg_available: bool, src_exists: bool) -> (r: Result<TranscodeJob, String>)
        ensures
            job_view(r) == transcode_outcome(ctx.work_dir@, params@, ffmpeg_available, src_exists),
    {
        transcode_job(ctx, params, ffmpeg_available, src_exists)
    }
}

// ---------------------------------------------------------------------------
// Webhook
// ---------------------------------------------------------------------------

/// A POST that a webhook node sends.
pub struct WebhookRequest {
    pub url: String,
    /// The JSON body: the run, the event and the file.
    pub body: JsonValue,
}

/// The body a webhook node posts for a run.
pub open spec fn webhook_body(run_id: Seq<char>, event_id: Seq<char>, work: Seq<char>) -> Json {
    Json::Object(seq![("run_id"@, Json::Str(run_id)), ("event_id"@, Json::Str(event_id)), ("file"@, Json::Str(work))])
}

/// Posts the run's metadata to the URL in the `url` parameter.
pub struct WebhookNode;

impl NodeExecutor for WebhookNode {
    open spec fn kind_spec(&self) -> Seq<char> {
        "webhook"@
    }

    fn kind(&self) -> (r: &'static str) {
        "webhook"
    }
}

impl WebhookNode {
    /// The POST this node sends, or the error for a missing URL.
    pub fn request(&self, ctx: &NodeContext, params: &JsonValue) -> (r: Result<WebhookRequest, String>)
        ensures
            match str_param(params@, "url"@) {
                Some(u) => r matches Ok(q) && q.url@ == u
                    && q.body@ == webhook_body(ctx.run_id@, ctx.event_id@, ctx.work_dir@),
                None => r matches Err(m) && m@ == "webhook node requires 'url' param"@,
            },
    {
        let url = match param_str(params, "url") {
            Some(u) => u,
            None => return Err(owned("webhook node requires 'url' param")),
        };
        let mut fields: Vec<(String, JsonValue)> = Vec::new();
        fields.push((owned("run_id"), JsonValue::Str(owned(ctx.run_id.as_str()))));
        fields.push((owned("event_id"), JsonValue::Str(owned(ctx.event_id.as_str()))));
        fields.push((owned("file"), JsonValue::Str(owned(ctx.work_dir.as_str()))));
        let body = JsonValue::Object(fields);
        proof {
            lemma_json_fields(fields@);
            assert(json_fields(fields@) =~= seq![
                ("run_id"@, Json::Str(ctx.run_id@)),
                ("event_id"@, Json::Str(ctx.event_id@)),
                ("file"@, Json::Str(ctx.work_dir@)),
            ]);
        }
        Ok(WebhookRequest { url, body })
    }

    /// The node's result once the POST to `url` has been answered with `status`
    /// (the code and its text, such as "500 Internal Server Error"), or has failed
    /// with the error text in `Err`.
    pub fn finish(&self, url: &str, answer: Result<(u16, String), String>) -> (r: Result<NodeOutput, String>)
        ensures
            match answer {
                Err(e) => r matches Err(m) && m@ == "webhook POST failed: "@ + e@,
                Ok((code, text)) => if 200 <= code < 300 {
                    r matches Ok(o) && (o.artifacts@.len() == 1 && o.artifacts@[0].kind@ == "link"@
                        && o.artifacts@[0].path is None && opt_seq(o.artifacts@[0].url) == Some(url@))
                } else {
                    r matches Err(m) && m@ == "webhook returned non-2xx status: "@ + text@
                },
            },
    {
        match answer {
            Err(e) => Err(concat("webhook POST failed: ", e.as_str())),
            Ok((code, text)) => if 200 <= code && code < 300 {
                Ok(link_output(owned(url)))
            } else {
                Err(concat("webhook returned non-2xx status: ", text.as_str()))
            },
        }
    }
}

// ---------------------------------------------------------------------------
// The built-in node kinds
// ---------------------------------------------------------------------------

/// One of the node kinds that come with the engine.
pub enum BuiltinNode {
    Move(MoveNode),
    Copy(CopyNode),
    Rename(RenameNode),
    Transcode(TranscodeNode),
    Webhook(WebhookNode),
}

impl NodeExecutor for BuiltinNode {
    open spec fn kind_spec(&self) -> Seq<char> {
        match self {
            BuiltinNode::Move(n) => n.kind_spec(),
            BuiltinNode::Copy(n) => n.kind_spec(),
            BuiltinNode::Rename(n) => n.kind_spec(),
            BuiltinNode::Transcode(n) => n.kind_spec(),
            BuiltinNode::Webhook(n) => n.kind_spec(),
        }
    }

    fn kind(&self) -> (r: &'static str) {
        match self {
            BuiltinNode::Move(n) => n.kind(),
            BuiltinNode::Copy(n) => n.kind(),
            BuiltinNode::Rename(n) => n.kind(),
            BuiltinNode::Transcode(n) => n.kind(),
            BuiltinNode::Webhook(n) => n.kind(),
        }
    }
}

/// The kinds of the built-in nodes, in the order they are registered.
pub open spec fn builtin_kinds() -> Seq<Seq<char>> {
    seq!["move"@, "copy"@, "rename"@, "transcode"@, "webhook"@]
}

/// A registry with every built-in node kind.
pub fn default_registry() -> (r: NodeRegistry<BuiltinNode>)
    ensures
        r.view().len() == 5,
        r.view().map_values(|e: BuiltinNode| e.kind_spec()) == builtin_kinds(),
{
    proof {
        reveal_strlit("move");
        reveal_strlit("copy");
        reveal_strlit("rename");
        reveal_strlit("transcode");
        reveal_strlit("webhook");
    }
    let mut reg = NodeRegistry::new();
    reg.register(BuiltinNode::Move(MoveNode));
    reg.register(BuiltinNode::Copy(CopyNode));
    reg.register(BuiltinNode::Rename(RenameNode));
    reg.register(BuiltinNode::Transcode(TranscodeNode));
    reg.register(BuiltinNode::Webhook(WebhookNode));
    proof {
        let s0 = Seq::<BuiltinNode>::empty();
        let s1 = registered(s0, BuiltinNode::Move(MoveNode));
        lemma_find_kind_from(s0, "move"@, 0);
        assert(s1 =~= s0.push(BuiltinNode::Move(MoveNode)));
        lemma_find_kind_from(s1, "copy"@, 0);
        assert(s1[0].kind_spec()[0] != "copy"@[0]);
        let s2 = registered(s1, BuiltinNode::Copy(CopyNode));
        assert(s2 =~= s1.push(BuiltinNode::Copy(CopyNode)));
        lemma_find_kind_from(s2, "rename"@, 0);
        assert(s2[0].kind_spec()[0] != "rename"@[0]);
        assert(s2[1].kind_spec()[0] != "rename"@[0]);
        let s3 = registered(s2, BuiltinNode::Rename(RenameNode));
        assert(s3 =~= s2.push(BuiltinNode::Rename(RenameNode)));
        lemma_find_kind_from(s3, "transcode"@, 0);
        assert(s3[0].kind_spec()[0] != "transcode"@[0]);
        assert(s3[1].kind_spec()[0] != "transcode"@[0]);
        assert(s3[2].kind_spec()[0] != "transcode"@[0]);
        let s4 = registered(s3, BuiltinNode::Transcode(TranscodeNode));
        assert(s4 =~= s3.push(BuiltinNode::Transcode(TranscodeNode)));
        lemma_find_kind_from(s4, "webhook"@, 0);
        assert(s4[0].kind_spec()[0] != "webhook"@[0]);
        assert(s4[1].kind_spec()[0] != "webhook"@[0]);
        assert(s4[2].kind_spec()[0] != "webhook"@[0]);
        assert(s4[3].kind_spec()[0] != "webhook"@[0]);
        let s5 = registered(s4, BuiltinNode::Webhook(WebhookNode));
        assert(s5 =~= s4.push(BuiltinNode::Webhook(WebhookNode)));
        assert(reg.view().map_values(|e: BuiltinNode| e.kind_spec()) =~= builtin_kinds());
    }
    reg
}

} // verus!
