//! A world: a world document with its header, state and scenes of its own, plus the
//! scene files of a directory, each file's scenes recorded as coming from it.
use vstd::prelude::*;
use crate::document::{all_from, header_field, meta_from, meta_keys, scenes_block_spec, state_spec};
use crate::error::YamamvaError;
use crate::json::{
    Json, JsonV, jv, jv_members, lemma_jv_members, lemma_members_get, members_ascending,
    members_get, members_keys, object_insert, lemma_members_put_props, seq_lt,
};
use crate::parser::{collect_meta, files_for, get_string, parse_scenes_block, parse_state};
use crate::scenario::{NodeV, Scenario, ScenarioV, files_view, opt_str, scenario_view, scenes_view};
use crate::scene_ref::{parse_file_scene_ref, scene_ref_parts};
use crate::strmap::StrMap;
use crate::text::{chars_of, concat2, concat3, str_equal, string_from_chars};
use crate::yaml::{Yaml, YamlV, as_mapping, get, yv};
use crate::sources::{parse_yaml_text, yaml_doc_of_text};

verus! {

/// The file recorded for the scenes of the world document itself.
pub open spec fn world_file() -> Seq<char> {
    seq!['_', '_', 'w', 'o', 'r', 'l', 'd', '_', '_']
}

/// The directory of scene files when the world names none.
pub open spec fn default_scene_path() -> Seq<char> {
    seq!['s', 'c', 'e', 'n', 'e', 's', '/']
}

/// The header of a world document: a mapping with `id` and `entry` (errors in that
/// order), an optional `title` (empty by default) and `version`, the scene directory
/// `scene_path` (`scenes/` by default), the `state` entries as initial variables, and
/// the metadata sections; no scenes yet.
pub open spec fn world_head(doc: YamlV) -> Result<ScenarioV, Seq<char>> {
    match as_mapping(doc) {
        None => Err("top-level must be a mapping"@),
        Some(e) => match header_field(doc, seq!['i', 'd']) {
            None => Err("missing required field: id"@),
            Some(id) => match header_field(doc, seq!['e', 'n', 't', 'r', 'y']) {
                None => Err("missing required field: entry"@),
                Some(entry) => Ok(
                    ScenarioV {
                        id,
                        title: match header_field(doc, seq!['t', 'i', 't', 'l', 'e']) {
                            Some(t) => t,
                            None => Seq::empty(),
                        },
                        version: header_field(doc, seq!['v', 'e', 'r', 's', 'i', 'o', 'n']),
                        entry,
                        initial_state: state_spec(doc),
                        meta: meta_from(e, meta_keys()),
                        scenes: Map::empty(),
                        scene_file: Map::empty(),
                        scene_path: Some(
                            match header_field(
                                doc,
                                seq!['s', 'c', 'e', 'n', 'e', '_', 'p', 'a', 't', 'h'],
                            ) {
                                Some(p) => p,
                                None => default_scene_path(),
                            },
                        ),
                    },
                ),
            },
        },
    }
}

/// The error for a scene that two scene files define.
pub open spec fn duplicate_message(sid: Seq<char>, first: Seq<char>, second: Seq<char>) -> Seq<char> {
    "scene '"@ + sid + "' defined in both '"@ + first + "' and '"@ + second + "'"@
}

/// The error for a scene of the world document that a scene file defines too.
pub open spec fn conflict_message(sid: Seq<char>) -> Seq<char> {
    "scene '"@ + sid + "' in world.yaml conflicts with scene file"@
}

/// The scenario with more scenes, each recorded as coming from `file`.
pub open spec fn with_scenes(sc: ScenarioV, more: Map<Seq<char>, Seq<NodeV>>, file: Seq<char>) -> ScenarioV {
    ScenarioV {
        scenes: sc.scenes.union_prefer_right(more),
        scene_file: sc.scene_file.union_prefer_right(all_from(more, file)),
        ..sc
    }
}

/// The scenes of the world document itself (none without a `scenes` field).
pub open spec fn own_scenes(doc: YamlV) -> Result<Map<Seq<char>, Seq<NodeV>>, Seq<char>> {
    match get(doc, seq!['s', 'c', 'e', 'n', 'e', 's']) {
        None => Ok(Map::empty()),
        Some(sv) => scenes_block_spec(sv),
    }
}

/// What is wrong with a scenario's entry, if anything: a reference with an empty
/// scene, or a scene that does not exist.
pub open spec fn entry_error(sc: ScenarioV) -> Option<Seq<char>> {
    match scene_ref_parts(sc.entry) {
        None => Some("empty scene_id in reference '"@ + sc.entry + "'"@),
        Some((_, sid)) => if sc.scenes.contains_key(sid) {
            None
        } else {
            Some("entry scene '"@ + sid + "' not found"@)
        },
    }
}

/// The outcome of adding the scene file `stem`, whose document is `doc`, to a world
/// whose scenario was `before` and is `after`: its scenes, each recorded as coming
/// from `stem`; or, leaving the world as it was, the error of a document that is not
/// a scenes block, or of a scene that an earlier file defines.
pub open spec fn scene_file_added(
    before: ScenarioV,
    after: ScenarioV,
    stem: Seq<char>,
    doc: YamlV,
    r: Result<(), YamamvaError>,
) -> bool {
    match r {
        Ok(_) => scenes_block_spec(doc) matches Ok(fs) && fs.dom().disjoint(
            before.scenes.dom(),
        ) && after == with_scenes(before, fs, stem),
        Err(e) => {
            &&& after == before
            &&& e is Parse
            &&& match scenes_block_spec(doc) {
                Err(m) => e->Parse_0@ == m,
                Ok(fs) => exists|sid: Seq<char>|
                    #![trigger fs.contains_key(sid)]
                    fs.contains_key(sid) && before.scenes.contains_key(sid)
                        && e->Parse_0@ == duplicate_message(
                        sid,
                        before.scene_file[sid],
                        stem,
                    ),
            }
        },
    }
}

/// A world being assembled: the header of its world document and the scenes of the
/// scene files added so far.
pub struct World {
    scenario: Scenario,
    doc: Yaml,
}

impl View for World {
    type V = ScenarioV;

    closed spec fn view(&self) -> ScenarioV {
        scenario_view(self.scenario)
    }
}

impl World {
    /// The scenes with a recorded file are exactly the scenes.
    #[verifier::type_invariant]
    spec fn wf(self) -> bool {
        scenario_view(self.scenario).scene_file.dom() == scenario_view(self.scenario).scenes.dom()
    }

    /// The world document, whose own scenes `finish` adds.
    pub closed spec fn document(&self) -> YamlV {
        yv(self.doc)
    }

    /// Reads the header of a world document given as YAML text; text that is not
    /// YAML is an error with the YAML parser's message.
    pub fn from_text(world_str: &str) -> (r: Result<World, YamamvaError>)
        ensures
            match yaml_doc_of_text(world_str@) {
                Err(m) => (r matches Err(e) && e is Parse && e->Parse_0@ == m),
                Ok(d) => match r {
                    Ok(w) => world_head(d) == Ok::<ScenarioV, Seq<char>>(w@)
                        && w.document() == d,
                    Err(e) => e is Parse && world_head(d) == Err::<ScenarioV, Seq<char>>(
                        e->Parse_0@,
                    ),
                },
            },
    {
        match parse_yaml_text(world_str) {
            Ok(doc) => World::from_document(doc),
            Err(m) => Err(YamamvaError::Parse(m)),
        }
    }

    /// Reads the header of a world document.
    pub fn from_document(doc: Yaml) -> (r: Result<World, YamamvaError>)
        ensures
            match r {
                Ok(w) => world_head(yv(doc)) == Ok::<ScenarioV, Seq<char>>(w@)
                    && w.document() == yv(doc),
                Err(e) => e is Parse && world_head(yv(doc)) == Err::<ScenarioV, Seq<char>>(
                    e->Parse_0@,
                ),
            },
    {
        let doc_ref = &doc;
        proof {
            reveal_strlit("id");
            reveal_strlit("title");
            reveal_strlit("entry");
            reveal_strlit("version");
            reveal_strlit("scene_path");
            reveal_strlit("scenes/");
            assert("id"@ =~= seq!['i', 'd']);
            assert("title"@ =~= seq!['t', 'i', 't', 'l', 'e']);
            assert("entry"@ =~= seq!['e', 'n', 't', 'r', 'y']);
            assert("version"@ =~= seq!['v', 'e', 'r', 's', 'i', 'o', 'n']);
            assert("scene_path"@ =~= seq!['s', 'c', 'e', 'n', 'e', '_', 'p', 'a', 't', 'h']);
            assert("scenes/"@ =~= default_scene_path());
        }
        let e = match doc_ref.as_mapping() {
            Some(e) => e,
            None => {
                return Err(YamamvaError::Parse(String::from_str("top-level must be a mapping")));
            },
        };
        let id = match get_string(doc_ref, "id") {
            Some(s) => s,
            None => {
                return Err(YamamvaError::Parse(String::from_str("missing required field: id")));
            },
        };
        let title = match get_string(doc_ref, "title") {
            Some(s) => s,
            None => String::new(),
        };
        let version = get_string(doc_ref, "version");
        let entry = match get_string(doc_ref, "entry") {
            Some(s) => s,
            None => {
                return Err(
                    YamamvaError::Parse(String::from_str("missing required field: entry")),
                );
            },
        };
        let scene_path = match get_string(doc_ref, "scene_path") {
            Some(s) => s,
            None => String::from_str("scenes/"),
        };
        let initial_state = parse_state(doc_ref);
        let meta = collect_meta(e);
        let scenes: StrMap<Vec<crate::scenario::Node>> = StrMap::new();
        let scene_file: StrMap<String> = StrMap::new();
        let w = World {
            scenario: Scenario {
                id,
                title,
                version,
                entry,
                initial_state,
                meta,
                scenes,
                scene_file,
                scene_path: Some(scene_path),
            },
            doc,
        };
        assert(scenes_view(w.scenario.scenes) =~= Map::empty());
        assert(files_view(w.scenario.scene_file) =~= Map::empty());
        Ok(w)
    }

    /// The directory of the world's scene files, relative to the world document.
    pub fn scene_path(&self) -> (p: &Option<String>)
        ensures
            opt_str(*p) == self@.scene_path,
    {
        &self.scenario.scene_path
    }

    /// Adds the scenes of the scene file `stem`, each recorded as coming from it. A
    /// scene that an earlier file defines is an error, and so is a document that is
    /// not a scenes block; on an error the world is left as it was.
    #[verifier::rlimit(50)]
    pub fn add_scene_file(&mut self, stem: &str, doc: &Yaml) -> (r: Result<(), YamamvaError>)
        ensures
            final(self).document() == old(self).document(),
            scene_file_added(old(self)@, final(self)@, stem@, yv(*doc), r),
    {
        proof {
            use_type_invariant(&*self);
        }
        let fs = match parse_scenes_block(doc) {
            Ok(m) => m,
            Err(pe) => {
                return Err(YamamvaError::from(pe));
            },
        };
        let ghost fsm = scenes_view(fs);
        match fs.common_key(&self.scenario.scenes) {
            Some(sid) => {
                let first = match self.scenario.scene_file.get(sid.as_str()) {
                    Some(f) => f,
                    None => {
                        proof {
                            assert(self@.scenes.contains_key(sid@));
                        }
                        return Err(YamamvaError::Parse(String::new()));
                    },
                };
                let mut m = concat3("scene '", sid.as_str(), "' defined in both '");
                m.append(first.as_str());
                m.append("' and '");
                m.append(stem);
                m.append("'");
                proof {
                    assert(fsm.contains_key(sid@));
                    assert(m@ == duplicate_message(sid@, old(self)@.scene_file[sid@], stem@));
                }
                return Err(YamamvaError::Parse(m));
            },
            None => {},
        }
        assert(fsm.dom().disjoint(old(self)@.scenes.dom()));
        let ff = files_for(&fs, stem);
        let mut sc = Scenario {
            id: String::new(),
            title: String::new(),
            version: None,
            entry: String::new(),
            initial_state: StrMap::new(),
            meta: StrMap::new(),
            scenes: StrMap::new(),
            scene_file: StrMap::new(),
            scene_path: None,
        };
        assert(scenes_view(sc.scenes) =~= Map::empty());
        std::mem::swap(&mut sc, &mut self.scenario);
        sc.scene_file.extend(ff);
        sc.scenes.extend(fs);
        proof {
            assert(scenes_view(sc.scenes) =~= old(self)@.scenes.union_prefer_right(fsm));
            assert(files_view(sc.scene_file) =~= old(self)@.scene_file.union_prefer_right(
                all_from(fsm, stem@),
            ));
            assert(scenario_view(sc).scene_file.dom() =~= scenario_view(sc).scenes.dom());
        }
        self.scenario = sc;
        Ok(())
    }

    /// Adds the scenes of the scene file `stem` given as YAML text (see
    /// `add_scene_file`); text that is not YAML is an error with the YAML parser's
    /// message after `YAML syntax error: `, and leaves the world as it was.
    pub fn add_scene_text(&mut self, stem: &str, text: &str) -> (r: Result<(), YamamvaError>)
        ensures
            final(self).document() == old(self).document(),
            match yaml_doc_of_text(text@) {
                Err(m) => final(self)@ == old(self)@ && (r matches Err(e) && e is Parse
                    && e->Parse_0@ == "YAML syntax error: "@ + m),
                Ok(d) => scene_file_added(old(self)@, final(self)@, stem@, d, r),
            },
    {
        match parse_yaml_text(text) {
            Ok(doc) => self.add_scene_file(stem, &doc),
            Err(m) => Err(YamamvaError::Parse(concat2("YAML syntax error: ", m.as_str()))),
        }
    }

    /// Adds the world document's own scenes, recorded as coming from the world, and
    /// checks the entry: the scenario, or the first error. A scene of the world
    /// document that a scene file defines too is an error.
    pub fn finish(self) -> (r: Result<Scenario, YamamvaError>)
        ensures
            match r {
                Ok(s) => own_scenes(self.document()) matches Ok(ws) && ws.dom().disjoint(
                    self@.scenes.dom(),
                ) && scenario_view(s) == with_scenes(self@, ws, world_file()) && entry_error(
                    scenario_view(s),
                ) is None && scenario_view(s).scene_file.dom() == scenario_view(s).scenes.dom(),
                Err(e) => e is Parse && match own_scenes(self.document()) {
                    Err(m) => e->Parse_0@ == m,
                    Ok(ws) => if ws.dom().disjoint(self@.scenes.dom()) {
                        entry_error(with_scenes(self@, ws, world_file())) == Some(e->Parse_0@)
                    } else {
                        exists|sid: Seq<char>|
                            #![trigger ws.contains_key(sid)]
                            ws.contains_key(sid) && self@.scenes.contains_key(sid) && e->Parse_0@
                                == conflict_message(sid)
                    },
                },
            },
    {
        proof {
            use_type_invariant(&self);
        }
        let ghost before = self@;
        let World { scenario, doc } = self;
        let mut sc = scenario;
        add_own_scenes(&mut sc, &doc)?;
        proof {
            let sv = scenario_view(sc);
            if let Ok(ws) = own_scenes(yv(doc)) {
                assert(sv.scene_file.dom() =~= sv.scenes.dom());
            }
        }
        check_entry(sc)
    }
}

/// Adds the world document's own scenes to a scenario, recorded as coming from the
/// world; a scene that the scenario has already is an error.
#[verifier::rlimit(50)]
fn add_own_scenes(sc: &mut Scenario, doc: &Yaml) -> (r: Result<(), YamamvaError>)
    ensures
        match r {
            Ok(_) => own_scenes(yv(*doc)) matches Ok(ws) && ws.dom().disjoint(
                scenario_view(*old(sc)).scenes.dom(),
            ) && scenario_view(*final(sc)) == with_scenes(scenario_view(*old(sc)), ws, world_file()),
            Err(e) => e is Parse && match own_scenes(yv(*doc)) {
                Err(m) => e->Parse_0@ == m,
                Ok(ws) => !ws.dom().disjoint(scenario_view(*old(sc)).scenes.dom()) && exists|
                    sid: Seq<char>,
                |
                    #![trigger ws.contains_key(sid)]
                    ws.contains_key(sid) && scenario_view(*old(sc)).scenes.contains_key(sid)
                        && e->Parse_0@ == conflict_message(sid),
            },
        },
{
    proof {
        reveal_strlit("scenes");
        reveal_strlit("__world__");
        assert("scenes"@ =~= seq!['s', 'c', 'e', 'n', 'e', 's']);
        assert("__world__"@ =~= world_file());
    }
    let ghost sv0 = scenario_view(*sc);
    let sv = match doc.get("scenes") {
        None => {
            assert(with_scenes(sv0, Map::empty(), world_file()) =~= sv0) by {
                assert(sv0.scenes.union_prefer_right(Map::empty()) =~= sv0.scenes);
                assert(sv0.scene_file.union_prefer_right(
                    all_from(Map::<Seq<char>, Seq<NodeV>>::empty(), world_file()),
                ) =~= sv0.scene_file);
            }
            return Ok(());
        },
        Some(sv) => sv,
    };
    let ws = match parse_scenes_block(sv) {
        Ok(m) => m,
        Err(pe) => {
            return Err(YamamvaError::from(pe));
        },
    };
    let ghost wsm = scenes_view(ws);
    match ws.common_key(&sc.scenes) {
        Some(sid) => {
            let m = concat3("scene '", sid.as_str(), "' in world.yaml conflicts with scene file");
            proof {
                assert(wsm.contains_key(sid@));
                assert(sv0.scenes.contains_key(sid@));
            }
            return Err(YamamvaError::Parse(m));
        },
        None => {},
    }
    assert(wsm.dom().disjoint(sv0.scenes.dom()));
    let wf = files_for(&ws, "__world__");
    sc.scene_file.extend(wf);
    sc.scenes.extend(ws);
    proof {
        assert(scenes_view(sc.scenes) =~= sv0.scenes.union_prefer_right(wsm));
        assert(files_view(sc.scene_file) =~= sv0.scene_file.union_prefer_right(
            all_from(wsm, world_file()),
        ));
        assert(scenario_view(*sc) =~= with_scenes(sv0, wsm, world_file()));
    }
    Ok(())
}

/// The scenario, when its entry names a scene that it has.
fn check_entry(sc: Scenario) -> (r: Result<Scenario, YamamvaError>)
    ensures
        match r {
            Ok(s) => s == sc && entry_error(scenario_view(sc)) is None,
            Err(e) => e is Parse && entry_error(scenario_view(sc)) == Some(e->Parse_0@),
        },
{
    match parse_file_scene_ref(sc.entry.as_str()) {
        Err(e) => Err(e),
        Ok((_, sid)) => {
            if sc.scenes.contains_key(sid.as_str()) {
                Ok(sc)
            } else {
                Err(YamamvaError::Parse(concat3("entry scene '", sid.as_str(), "' not found")))
            }
        },
    }
}

/// The position of the last `.` among the first `i` characters, or -1.
pub open spec fn last_dot(s: Seq<char>, i: int) -> int
    decreases i,
{
    if i <= 0 || i > s.len() {
        -1
    } else if s[i - 1] == '.' {
        i - 1
    } else {
        last_dot(s, i - 1)
    }
}

/// A file name's extension, as a path gives it: what follows the last `.`, where
/// that `.` is not the name's first character.
pub open spec fn extension(name: Seq<char>) -> Option<Seq<char>> {
    let d = last_dot(name, name.len() as int);
    if d > 0 {
        Some(name.subrange(d + 1, name.len() as int))
    } else {
        None
    }
}

/// A file name without its extension.
pub open spec fn file_stem(name: Seq<char>) -> Seq<char> {
    let d = last_dot(name, name.len() as int);
    if d > 0 {
        name.subrange(0, d)
    } else {
        name
    }
}

/// A scene file's name: one with the extension `yaml` or `yml`.
pub open spec fn is_scene_file_name(name: Seq<char>) -> bool {
    extension(name) == Some(seq!['y', 'a', 'm', 'l']) || extension(name) == Some(seq!['y', 'm', 'l'])
}

/// The stem of a scene file's name; none for other names.
fn scene_file_stem(name: &str) -> (r: Option<String>)
    ensures
        match r {
            Some(st) => is_scene_file_name(name@) && st@ == file_stem(name@),
            None => !is_scene_file_name(name@),
        },
{
    proof {
        reveal_strlit("yaml");
        reveal_strlit("yml");
        assert("yaml"@ =~= seq!['y', 'a', 'm', 'l']);
        assert("yml"@ =~= seq!['y', 'm', 'l']);
    }
    let cs = chars_of(name);
    let n = cs.len();
    let mut d = n;
    while d > 0 && cs[d - 1] != '.'
        invariant
            d <= n == cs@.len(),
            last_dot(cs@, n as int) == last_dot(cs@, d as int),
        decreases d,
    {
        d = d - 1;
    }
    if d <= 1 {
        return None;
    }
    let dot = d - 1;
    assert(last_dot(cs@, n as int) == dot);
    let ext = string_from_chars(&cs.as_slice()[dot + 1..n]);
    if str_equal(ext.as_str(), "yaml") || str_equal(ext.as_str(), "yml") {
        Some(string_from_chars(&cs.as_slice()[0..dot]))
    } else {
        None
    }
}

/// The scene files among a directory's file names (which are distinct), with their
/// stems, in the order in which they are loaded: ascending by name.
pub fn scene_file_plan(names: &Vec<String>) -> (r: Vec<(String, String)>)
    ensures
        forall|i: int, j: int| 0 <= i < j < r@.len() ==> seq_lt(#[trigger] r@[i].0@, #[trigger] r@[j].0@),
        forall|i: int|
            0 <= i < r@.len() ==> is_scene_file_name(#[trigger] r@[i].0@) && r@[i].1@ == file_stem(
                r@[i].0@,
            ) && exists|j: int| 0 <= j < names@.len() && #[trigger] names@[j]@ == r@[i].0@,
        forall|j: int|
            0 <= j < names@.len() && is_scene_file_name(#[trigger] names@[j]@) ==> exists|i: int|
                0 <= i < r@.len() && #[trigger] r@[i].0@ == names@[j]@,
{
    let mut m: Vec<(String, Json)> = Vec::new();
    let mut i: usize = 0;
    assert(members_keys(jv_members(m@)) =~= Set::<Seq<char>>::empty());
    while i < names.len()
        invariant
            i <= names@.len(),
            members_ascending(jv_members(m@)),
            members_keys(jv_members(m@)) == Set::new(
                |n: Seq<char>|
                    exists|j: int| 0 <= j < i && #[trigger] names@[j]@ == n && is_scene_file_name(n),
            ),
            forall|k: Seq<char>|
                #[trigger] members_keys(jv_members(m@)).contains(k) ==> members_get(
                    jv_members(m@),
                    k,
                ) == Some(JsonV::Str(file_stem(k))),
        decreases names@.len() - i,
    {
        let ghost m0 = jv_members(m@);
        let ghost k = names@[i as int]@;
        match scene_file_stem(names[i].as_str()) {
            Some(st) => {
                let ghost sv = st@;
                object_insert(&mut m, names[i].clone(), Json::Str(st));
                proof {
                    lemma_members_put_props(m0, k, JsonV::Str(sv));
                    assert(members_keys(jv_members(m@)) =~= Set::new(
                        |n: Seq<char>|
                            exists|j: int|
                                0 <= j < i + 1 && #[trigger] names@[j]@ == n && is_scene_file_name(n),
                    )) by {
                        assert forall|n: Seq<char>| members_keys(jv_members(m@)).contains(n) <==> (
                        exists|j: int|
                            0 <= j < i + 1 && #[trigger] names@[j]@ == n && is_scene_file_name(n)) by {
                            if n == k {
                                assert(names@[i as int]@ == n);
                            } else if exists|j: int|
                                0 <= j < i + 1 && #[trigger] names@[j]@ == n && is_scene_file_name(n) {
                                let j = choose|j: int|
                                    0 <= j < i + 1 && #[trigger] names@[j]@ == n && is_scene_file_name(n);
                                assert(j < i);
                                assert(members_keys(m0).contains(n));
                            }
                        }
                    }
                }
            },
            None => {
                proof {
                    assert(members_keys(jv_members(m@)) =~= Set::new(
                        |n: Seq<char>|
                            exists|j: int|
                                0 <= j < i + 1 && #[trigger] names@[j]@ == n && is_scene_file_name(n),
                    )) by {
                        assert forall|n: Seq<char>| (exists|j: int|
                            0 <= j < i + 1 && #[trigger] names@[j]@ == n && is_scene_file_name(n)) implies members_keys(jv_members(m@)).contains(n) by {
                            let j = choose|j: int|
                                0 <= j < i + 1 && #[trigger] names@[j]@ == n && is_scene_file_name(n);
                            assert(j != i);
                        }
                    }
                }
            },
        }
        i = i + 1;
    }
    let ghost jm = jv_members(m@);
    proof {
        lemma_jv_members(m@);
        lemma_members_get(jm);
    }
    let mut out: Vec<(String, String)> = Vec::new();
    let mut a: usize = 0;
    while a < m.len()
        invariant
            a <= m@.len(),
            jm == jv_members(m@),
            jm.len() == m@.len(),
            forall|b: int| 0 <= b < m@.len() ==> #[trigger] jm[b] == (m@[b].0@, jv(m@[b].1)),
            forall|b: int| 0 <= b < jm.len() ==> members_get(jm, #[trigger] jm[b].0) == Some(jm[b].1),
            forall|k: Seq<char>|
                #[trigger] members_keys(jm).contains(k) ==> members_get(jm, k) == Some(
                    JsonV::Str(file_stem(k)),
                ),
            out@.len() == a,
            forall|b: int| 0 <= b < a ==> #[trigger] out@[b].0@ == jm[b].0 && out@[b].1@ == file_stem(jm[b].0),
        decreases m@.len() - a,
    {
        assert(members_keys(jm).contains(jm[a as int].0));
        match &m[a].1 {
            Json::Str(st) => {
                out.push((m[a].0.clone(), st.clone()));
            },
            _ => {
                assert(false);
            },
        }
        a = a + 1;
    }
    proof {
        assert forall|i: int, j: int| 0 <= i < j < out@.len() implies seq_lt(
            #[trigger] out@[i].0@,
            #[trigger] out@[j].0@,
        ) by {
            assert(out@[i].0@ == jm[i].0);
            assert(out@[j].0@ == jm[j].0);
        }
        assert forall|i: int| 0 <= i < out@.len() implies is_scene_file_name(#[trigger] out@[i].0@)
            && out@[i].1@ == file_stem(out@[i].0@) && exists|j: int|
            0 <= j < names@.len() && #[trigger] names@[j]@ == out@[i].0@ by {
            assert(out@[i].0@ == jm[i].0);
            assert(members_keys(jm).contains(jm[i].0));
        }
        assert forall|j: int| 0 <= j < names@.len() && is_scene_file_name(#[trigger] names@[j]@) implies exists|i: int|
            0 <= i < out@.len() && #[trigger] out@[i].0@ == names@[j]@ by {
            assert(members_keys(jm).contains(names@[j]@));
            let i = choose|i: int| 0 <= i < jm.len() && #[trigger] jm[i].0 == names@[j]@;
            assert(out@[i].0@ == jm[i].0);
        }
    }
    out
}

} // verus!
