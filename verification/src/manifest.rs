//! The declarative manifest: one entry per subject, each with file and
//! registry path patterns and the conditions under which they apply.

use vstd::prelude::*;
use crate::Error;
use crate::strutil::{str_eq, str_eq_chars, str_to_chars, chars_to_string, parse_u32_chars};

verus! {

/// An operating system a manifest item may be restricted to.
#[derive(Clone, Copy, Debug, PartialEq, Eq, Structural)]
pub enum Os {
    Windows,
    Linux,
    Mac,
    Other,
}

impl Default for Os {
    fn default() -> (r: Self)
        ensures
            r == Os::Other,
    {
        Os::Other
    }
}

/// A distribution platform or launcher a scan root may belong to.
#[derive(Clone, Copy, Debug, PartialEq, Eq, Hash, Structural)]
pub enum Store {
    Epic,
    Gog,
    GogGalaxy,
    Heroic,
    Microsoft,
    Origin,
    Prime,
    Steam,
    Uplay,
    OtherHome,
    OtherWine,
    Other,
}

impl Default for Store {
    fn default() -> (r: Self)
        ensures
            r == Store::Other,
    {
        Store::Other
    }
}

/// A category tag on a manifest item.
#[derive(Clone, Copy, Debug, PartialEq, Eq, Structural)]
pub enum Tag {
    Save,
    Config,
    Other,
}

impl Default for Tag {
    fn default() -> (r: Self)
        ensures
            r == Tag::Other,
    {
        Tag::Other
    }
}

/// A condition on one file pattern: every specified field must equal the
/// scan context's value; an unspecified field is a wildcard.
#[derive(Clone, Debug, Default, PartialEq, Eq)]
pub struct GameFileConstraint {
    pub os: Option<Os>,
    pub store: Option<Store>,
}

/// A condition on one registry pattern.
#[derive(Clone, Debug, Default, PartialEq, Eq)]
pub struct GameRegistryConstraint {
    pub store: Option<Store>,
}

/// Declared data for one file pattern of a subject.
#[derive(Clone, Debug, Default, PartialEq, Eq)]
pub struct GameFileEntry {
    pub tags: Option<Vec<Tag>>,
    pub when: Option<Vec<GameFileConstraint>>,
}

/// Declared install-directory hint of a subject.
#[derive(Clone, Debug, Default, PartialEq, Eq)]
pub struct GameInstallDirEntry {}

/// Declared data for one registry pattern of a subject.
#[derive(Clone, Debug, Default, PartialEq, Eq)]
pub struct GameRegistryEntry {
    pub tags: Option<Vec<Tag>>,
    pub when: Option<Vec<GameRegistryConstraint>>,
}

/// The subject's Steam metadata.
#[derive(Clone, Copy, Debug, Default, PartialEq, Eq, Structural)]
pub struct SteamMetadata {
    pub id: Option<u32>,
}

/// The subject's GOG metadata.
#[derive(Clone, Copy, Debug, Default, PartialEq, Eq, Structural)]
pub struct GogMetadata {
    pub id: Option<u64>,
}

/// One subject's manifest entry.
#[derive(Clone, Debug, Default, PartialEq, Eq)]
pub struct Game {
    pub files: Option<Vec<(String, GameFileEntry)>>,
    pub install_dir: Option<Vec<(String, GameInstallDirEntry)>>,
    pub registry: Option<Vec<(String, GameRegistryEntry)>>,
    pub steam: Option<SteamMetadata>,
    pub gog: Option<GogMetadata>,
}

/// A user-declared subject override: explicit file and registry patterns,
/// or an `ignore` flag suppressing the manifest entry of the same name.
#[derive(Clone, Debug, Default, PartialEq, Eq)]
pub struct CustomGame {
    pub name: String,
    pub ignore: bool,
    pub files: Vec<String>,
    pub registry: Vec<String>,
}

/// The manifest: subject names paired with their entries.
#[derive(Clone, Debug, Default, PartialEq, Eq)]
pub struct Manifest(pub Vec<(String, Game)>);

/// The Steam-id-to-name pairs contributed by a prefix of the manifest, in
/// order of declaration.
pub open spec fn spec_steam_pairs(s: Seq<(String, Game)>) -> Seq<(u32, Seq<char>)>
    decreases s.len(),
{
    if s.len() == 0 {
        Seq::empty()
    } else {
        let rest = spec_steam_pairs(s.drop_last());
        let last = s.last();
        match last.1.steam {
            Some(meta) => match meta.id {
                Some(id) => rest.push((id, last.0@)),
                None => rest,
            },
            None => rest,
        }
    }
}

/// The GOG-id-to-name pairs contributed by a prefix of the manifest.
pub open spec fn spec_gog_pairs(s: Seq<(String, Game)>) -> Seq<(u64, Seq<char>)>
    decreases s.len(),
{
    if s.len() == 0 {
        Seq::empty()
    } else {
        let rest = spec_gog_pairs(s.drop_last());
        let last = s.last();
        match last.1.gog {
            Some(meta) => match meta.id {
                Some(id) => rest.push((id, last.0@)),
                None => rest,
            },
            None => rest,
        }
    }
}

/// True when an entry's pattern lists are exactly the override's lists,
/// each pattern carrying a default entry with no tags and no conditions.
pub open spec fn spec_custom_patterns(e: Game, custom: CustomGame) -> bool {
    &&& e.files is Some
    &&& e.files->0@.len() == custom.files@.len()
    &&& forall|i: int|
        0 <= i < custom.files@.len() ==> (#[trigger] e.files->0@[i]).0@ == custom.files@[i]@
            && e.files->0@[i].1 == (GameFileEntry { tags: None, when: None })
    &&& e.registry is Some
    &&& e.registry->0@.len() == custom.registry@.len()
    &&& forall|i: int|
        0 <= i < custom.registry@.len() ==> (#[trigger] e.registry->0@[i]).0@
            == custom.registry@[i]@ && e.registry->0@[i].1 == (GameRegistryEntry {
            tags: None,
            when: None,
        })
}

/// The merge of one override into a manifest: the override's pattern lists
/// fully replace the entry of the same name, while that entry's Steam and
/// GOG ids and install-dir hints are preserved; a name not yet declared
/// gains a fresh entry with no metadata. Every other entry is unchanged.
pub open spec fn spec_custom_merged(
    o: Seq<(String, Game)>,
    custom: CustomGame,
    g: Seq<(String, Game)>,
) -> bool {
    if exists|j: int| 0 <= j < o.len() && (#[trigger] o[j]).0@ == custom.name@ {
        let j = choose|j: int| 0 <= j < o.len() && (#[trigger] o[j]).0@ == custom.name@;
        &&& g.len() == o.len()
        &&& g[j].0@ == custom.name@
        &&& forall|k: int| 0 <= k < o.len() && k != j ==> g[k] == o[k]
        &&& g[j].1.steam == o[j].1.steam
        &&& g[j].1.install_dir == o[j].1.install_dir
        &&& g[j].1.gog == o[j].1.gog
        &&& spec_custom_patterns(g[j].1, custom)
    } else {
        &&& g.len() == o.len() + 1
        &&& forall|k: int| 0 <= k < o.len() ==> g[k] == o[k]
        &&& g.last().0@ == custom.name@
        &&& g.last().1.steam is None
        &&& g.last().1.install_dir is None
        &&& g.last().1.gog is None
        &&& spec_custom_patterns(g.last().1, custom)
    }
}

/// Overrides applied in order: ignored ones leave the manifest untouched,
/// every other one is merged as `spec_custom_merged` describes.
pub open spec fn spec_customs_applied(
    pre: Seq<(String, Game)>,
    customs: Seq<CustomGame>,
    post: Seq<(String, Game)>,
) -> bool
    decreases customs.len(),
{
    if customs.len() == 0 {
        post == pre
    } else {
        exists|mid: Seq<(String, Game)>|
            #[trigger] spec_custom_link(customs.last(), mid, post) && spec_customs_applied(
                pre,
                customs.drop_last(),
                mid,
            )
    }
}

/// One application step: the last override applied to the state reached so
/// far — skipped when ignored, merged otherwise.
pub open spec fn spec_custom_link(
    c: CustomGame,
    mid: Seq<(String, Game)>,
    post: Seq<(String, Game)>,
) -> bool {
    if c.ignore {
        post == mid
    } else {
        spec_custom_merged(mid, c, post)
    }
}

impl CustomGame {
    /// An equal copy, field by field.
    pub fn duplicate(&self) -> (r: Self)
        ensures
            r.name == self.name,
            r.ignore == self.ignore,
            r.files@ == self.files@,
            r.registry@ == self.registry@,
    {
        CustomGame {
            name: self.name.clone(),
            ignore: self.ignore,
            files: copy_strings(&self.files),
            registry: copy_strings(&self.registry),
        }
    }
}

fn copy_strings(v: &Vec<String>) -> (r: Vec<String>)
    ensures
        r@ == v@,
{
    let mut r: Vec<String> = Vec::new();
    let mut j: usize = 0;
    while j < v.len()
        invariant
            j <= v@.len(),
            r@.len() == j,
            forall|i: int| 0 <= i < j ==> r@[i] == v@[i],
        decreases v.len() - j,
    {
        r.push(v[j].clone());
        j += 1;
    }
    assert(r@ =~= v@);
    r
}

impl Game {
    /// The entry a custom override stands for: its file and registry
    /// patterns, each with no tags and no conditions.
    pub fn from_custom(custom: &CustomGame) -> (g: Game)
        ensures
            spec_custom_patterns(g, *custom),
            g.install_dir is None,
            g.steam is None,
            g.gog is None,
    {
        let mut files: Vec<(String, GameFileEntry)> = Vec::new();
        let mut i: usize = 0;
        while i < custom.files.len()
            invariant
                i <= custom.files@.len(),
                files@.len() == i,
                forall|j: int|
                    0 <= j < i ==> (#[trigger] files@[j]).0@ == custom.files@[j]@ && files@[j].1
                        == (GameFileEntry { tags: None, when: None }),
            decreases custom.files@.len() - i,
        {
            files.push((custom.files[i].clone(), GameFileEntry { tags: None, when: None }));
            i += 1;
        }
        let mut registry: Vec<(String, GameRegistryEntry)> = Vec::new();
        let mut j: usize = 0;
        while j < custom.registry.len()
            invariant
                j <= custom.registry@.len(),
                registry@.len() == j,
                forall|k: int|
                    0 <= k < j ==> (#[trigger] registry@[k]).0@ == custom.registry@[k]@
                        && registry@[k].1 == (GameRegistryEntry { tags: None, when: None }),
            decreases custom.registry@.len() - j,
        {
            registry.push((custom.registry[j].clone(), GameRegistryEntry {
                tags: None,
                when: None,
            }));
            j += 1;
        }
        Game { files: Some(files), install_dir: None, registry: Some(registry), steam: None, gog: None }
    }
}

impl Manifest {
    /// Well-formed: subject names are unique.
    pub open spec fn wf(&self) -> bool {
        forall|i: int, j: int| 0 <= i < j < self.0@.len() ==> self.0@[i].0@ != self.0@[j].0@
    }

    /// The position of a subject's entry.
    fn find_game(&self, name: &str) -> (r: Option<usize>)
        ensures
            r is Some ==> r->0 < self.0@.len() && self.0@[r->0 as int].0@ == name@,
            r is None ==> forall|i: int| 0 <= i < self.0@.len() ==> self.0@[i].0@ != name@,
    {
        let mut i: usize = 0;
        while i < self.0.len()
            invariant
                i <= self.0@.len(),
                forall|j: int| 0 <= j < i ==> self.0@[j].0@ != name@,
            decreases self.0@.len() - i,
        {
            if str_eq(self.0[i].0.as_str(), name) {
                return Some(i);
            }
            i += 1;
        }
        None
    }

    /// The entry of the named subject, if declared.
    pub fn get(&self, name: &str) -> (r: Option<&Game>)
        ensures
            r is Some ==> exists|i: int|
                0 <= i < self.0@.len() && #[trigger] self.0@[i].0@ == name@ && *r->0 == self.0@[
                i].1,
            r is None ==> forall|i: int| 0 <= i < self.0@.len() ==> self.0@[i].0@ != name@,
    {
        match self.find_game(name) {
            Some(i) => Some(&self.0[i].1),
            None => None,
        }
    }

    /// The declared subject names, in order.
    pub fn game_names(&self) -> (r: Vec<String>)
        ensures
            r@.len() == self.0@.len(),
            forall|i: int| 0 <= i < r@.len() ==> r@[i]@ == (#[trigger] self.0@[i]).0@,
    {
        let mut r: Vec<String> = Vec::new();
        let mut i: usize = 0;
        while i < self.0.len()
            invariant
                i <= self.0@.len(),
                r@.len() == i,
                forall|j: int| 0 <= j < i ==> r@[j]@ == (#[trigger] self.0@[j]).0@,
            decreases self.0@.len() - i,
        {
            r.push(self.0[i].0.clone());
            i += 1;
        }
        r
    }

    /// Maps each declared Steam id to its subject's name, in declaration
    /// order.
    pub fn map_steam_ids_to_names(&self) -> (r: Vec<(u32, String)>)
        ensures
            r@.map_values(|p: (u32, String)| (p.0, p.1@)) == spec_steam_pairs(self.0@),
    {
        let mut r: Vec<(u32, String)> = Vec::new();
        let mut i: usize = 0;
        while i < self.0.len()
            invariant
                i <= self.0@.len(),
                r@.map_values(|p: (u32, String)| (p.0, p.1@)) == spec_steam_pairs(
                    self.0@.subrange(0, i as int),
                ),
            decreases self.0@.len() - i,
        {
            let ghost pre = self.0@.subrange(0, i as int);
            let ghost nxt = self.0@.subrange(0, i + 1);
            proof {
                assert(nxt.drop_last() =~= pre);
                assert(nxt.last() == self.0@[i as int]);
            }
            match &self.0[i].1.steam {
                Some(meta) => match meta.id {
                    Some(id) => {
                        r.push((id, self.0[i].0.clone()));
                        proof {
                            assert(r@.map_values(|p: (u32, String)| (p.0, p.1@))
                                =~= spec_steam_pairs(nxt));
                        }
                    },
                    None => {},
                },
                None => {},
            }
            i += 1;
        }
        proof {
            assert(self.0@.subrange(0, self.0@.len() as int) =~= self.0@);
        }
        r
    }

    /// Maps each declared GOG id to its subject's name, in declaration order.
    pub fn map_gog_ids_to_names(&self) -> (r: Vec<(u64, String)>)
        ensures
            r@.map_values(|p: (u64, String)| (p.0, p.1@)) == spec_gog_pairs(self.0@),
    {
        let mut r: Vec<(u64, String)> = Vec::new();
        let mut i: usize = 0;
        while i < self.0.len()
            invariant
                i <= self.0@.len(),
                r@.map_values(|p: (u64, String)| (p.0, p.1@)) == spec_gog_pairs(
                    self.0@.subrange(0, i as int),
                ),
            decreases self.0@.len() - i,
        {
            let ghost pre = self.0@.subrange(0, i as int);
            let ghost nxt = self.0@.subrange(0, i + 1);
            proof {
                assert(nxt.drop_last() =~= pre);
                assert(nxt.last() == self.0@[i as int]);
            }
            match &self.0[i].1.gog {
                Some(meta) => match meta.id {
                    Some(id) => {
                        r.push((id, self.0[i].0.clone()));
                        proof {
                            assert(r@.map_values(|p: (u64, String)| (p.0, p.1@))
                                =~= spec_gog_pairs(nxt));
                        }
                    },
                    None => {},
                },
                None => {},
            }
            i += 1;
        }
        proof {
            assert(self.0@.subrange(0, self.0@.len() as int) =~= self.0@);
        }
        r
    }

    /// Merges one custom override into the manifest: the override's pattern
    /// lists fully replace the entry of the same name, while that entry's
    /// Steam and GOG ids and install-dir hints are preserved.
    pub fn add_custom_game(&mut self, custom: CustomGame)
        requires
            old(self).wf(),
        ensures
            final(self).wf(),
            spec_custom_merged(old(self).0@, custom, final(self).0@),
    {
        let mut game = Game::from_custom(&custom);
        let found = self.find_game(custom.name.as_str());
        match found {
            Some(i) => {
                proof {
                    let o = old(self).0@;
                    let j = choose|j: int| 0 <= j < o.len() && (#[trigger] o[j]).0@ == custom.name@;
                    assert(j == i);
                }
                let prev_entry = self.0.remove(i);
                game.steam = prev_entry.1.steam;
                game.install_dir = prev_entry.1.install_dir;
                game.gog = prev_entry.1.gog;
                self.0.insert(i, (custom.name, game));
                proof {
                    let o = old(self).0@;
                    let g = final(self).0@;
                    assert(g.len() == o.len());
                    assert forall|k: int| 0 <= k < o.len() && k != i implies g[k] == o[k] by {
                        if k < i {
                            assert(g[k] == o.remove(i as int)[k]);
                        } else {
                            assert(o.remove(i as int)[k - 1] == o[k]);
                        }
                    }
                    assert(g[i as int].0@ == custom.name@);
                    assert(g[i as int].1.steam == o[i as int].1.steam);
                    assert(g[i as int].1.install_dir == o[i as int].1.install_dir);
                    assert(g[i as int].1.gog == o[i as int].1.gog);
                    assert(spec_custom_patterns(g[i as int].1, custom));
                }
            },
            None => {
                self.0.push((custom.name, game));
                proof {
                    let g = final(self).0@;
                    assert(g.last().0@ == custom.name@);
                    assert(spec_custom_patterns(g.last().1, custom));
                }
            },
        }
    }

    /// Merges every custom override that is not flagged `ignore`, in order:
    /// each one applied exactly as `add_custom_game` does, and ignored ones
    /// leaving the manifest untouched.
    #[verifier::loop_isolation(false)]
    pub fn load_custom_games(&mut self, custom_games: &Vec<CustomGame>)
        requires
            old(self).wf(),
        ensures
            final(self).wf(),
            spec_customs_applied(old(self).0@, custom_games@, final(self).0@),
    {
        let mut i: usize = 0;
        proof {
            assert(custom_games@.subrange(0, 0).len() == 0);
            assert(spec_customs_applied(old(self).0@, custom_games@.subrange(0, 0), self.0@));
        }
        while i < custom_games.len()
            invariant
                self.wf(),
                i <= custom_games@.len(),
                spec_customs_applied(
                    old(self).0@,
                    custom_games@.subrange(0, i as int),
                    self.0@,
                ),
            decreases custom_games@.len() - i,
        {
            let ghost pre = custom_games@.subrange(0, i as int);
            let ghost nxt = custom_games@.subrange(0, i + 1);
            let ghost mid = self.0@;
            proof {
                assert(nxt.drop_last() =~= pre);
                assert(nxt.last() == custom_games@[i as int]);
            }
            if !custom_games[i].ignore {
                let custom = custom_games[i].duplicate();
                proof {
                    assert(custom.name@ == custom_games@[i as int].name@);
                }
                self.add_custom_game(custom);
                proof {
                    assert(spec_custom_merged(mid, custom_games@[i as int], self.0@)) by {
                        assert(spec_custom_merged(mid, custom, self.0@));
                        assert(custom.name == custom_games@[i as int].name);
                        assert(custom.files@ == custom_games@[i as int].files@);
                        assert(custom.registry@ == custom_games@[i as int].registry@);
                    }
                    assert(nxt.drop_last() == pre);
                    assert(spec_customs_applied(old(self).0@, nxt.drop_last(), mid));
                    assert(spec_custom_link(nxt.last(), mid, self.0@));
                    assert(spec_customs_applied(old(self).0@, nxt, self.0@));
                }
            } else {
                proof {
                    assert(nxt.drop_last() == pre);
                    assert(spec_customs_applied(old(self).0@, nxt.drop_last(), mid));
                    assert(self.0@ == mid);
                    assert(spec_custom_link(nxt.last(), mid, self.0@));
                    assert(spec_customs_applied(old(self).0@, nxt, self.0@));
                }
            }
            i += 1;
        }
        proof {
            assert(custom_games@.subrange(0, custom_games@.len() as int) =~= custom_games@);
        }
    }
}

/// One line of a manifest document: its indentation depth and its text.
struct SrcLine {
    indent: usize,
    content: Vec<char>,
}

#[verifier::loop_isolation(false)]
fn split_lines(chars: &Vec<char>) -> (r: Vec<SrcLine>)
{
    let mut lines: Vec<SrcLine> = Vec::new();
    let mut i: usize = 0;
    let n = chars.len();
    while i < n
        invariant
            i <= n,
            n == chars@.len(),
        decreases n - i,
    {
        let ghost i0 = i;
        // measure indentation
        let mut indent: usize = 0;
        while i < n && chars[i] == ' '
            invariant
                i0 <= i <= n,
                n == chars@.len(),
            decreases n - i,
        {
            i += 1;
            if indent < usize::MAX {
                indent += 1;
            }
        }
        let ghost i1 = i;
        let mut content: Vec<char> = Vec::new();
        while i < n && chars[i] != '\n'
            invariant
                i1 <= i <= n,
                i0 <= i1,
                n == chars@.len(),
            decreases n - i,
        {
            if chars[i] != '\r' {
                content.push(chars[i]);
            }
            i += 1;
        }
        if i < n {
            i += 1;  // consume the newline
        }
        if content.len() > 0 {
            lines.push(SrcLine { indent, content });
        }
    }
    lines
}

/// Splits `key: value` at the first colon; the value may be empty.
#[verifier::loop_isolation(false)]
fn split_key_value(content: &Vec<char>) -> (r: Option<(Vec<char>, Vec<char>)>)
{
    let n = content.len();
    let mut c: usize = 0;
    while c < n && content[c] != ':'
        invariant
            c <= n,
            n == content@.len(),
        decreases n - c,
    {
        c += 1;
    }
    if c == n {
        return None;
    }
    let mut key: Vec<char> = Vec::new();
    let mut k: usize = 0;
    while k < c
        invariant
            k <= c,
            c < content@.len(),
        decreases c - k,
    {
        key.push(content[k]);
        k += 1;
    }
    let mut v: usize = c + 1;
    while v < n && content[v] == ' '
        invariant
            v <= n,
            n == content@.len(),
        decreases n - v,
    {
        v += 1;
    }
    let mut value: Vec<char> = Vec::new();
    while v < n
        invariant
            v <= n,
            n == content@.len(),
        decreases n - v,
    {
        value.push(content[v]);
        v += 1;
    }
    Some((key, value))
}

fn parse_os_word(v: &Vec<char>) -> (r: Option<Os>)
{
    if str_eq_chars("windows", v) {
        Some(Os::Windows)
    } else if str_eq_chars("linux", v) {
        Some(Os::Linux)
    } else if str_eq_chars("mac", v) {
        Some(Os::Mac)
    } else {
        Some(Os::Other)
    }
}

fn parse_store_word(v: &Vec<char>) -> (r: Option<Store>)
{
    if str_eq_chars("epic", v) {
        Some(Store::Epic)
    } else if str_eq_chars("gog", v) {
        Some(Store::Gog)
    } else if str_eq_chars("gogGalaxy", v) {
        Some(Store::GogGalaxy)
    } else if str_eq_chars("heroic", v) {
        Some(Store::Heroic)
    } else if str_eq_chars("microsoft", v) {
        Some(Store::Microsoft)
    } else if str_eq_chars("origin", v) {
        Some(Store::Origin)
    } else if str_eq_chars("prime", v) {
        Some(Store::Prime)
    } else if str_eq_chars("steam", v) {
        Some(Store::Steam)
    } else if str_eq_chars("uplay", v) {
        Some(Store::Uplay)
    } else if str_eq_chars("otherHome", v) {
        Some(Store::OtherHome)
    } else if str_eq_chars("otherWine", v) {
        Some(Store::OtherWine)
    } else {
        Some(Store::Other)
    }
}

fn parse_tag_word(v: &Vec<char>) -> (r: Tag)
{
    if str_eq_chars("save", v) {
        Tag::Save
    } else if str_eq_chars("config", v) {
        Tag::Config
    } else {
        Tag::Other
    }
}

fn invalid_manifest() -> (r: Error)
{
    Error::ManifestInvalid { why: String::from_str("unrecognized manifest structure") }
}

impl Manifest {
    /// Parses a manifest document: a map from subject names to entries, with
    /// nested `files`, `installDir`, `registry`, `steam`, and `gog` blocks.
    /// Inline `{}` and `[]` denote empty maps and lists. Returns a
    /// well-formed manifest, or an error for text outside this shape.
    #[verifier::loop_isolation(false)]
    #[verifier::rlimit(100)]
    pub fn load_from_string(s: &str) -> (r: Result<Manifest, Error>)
        ensures
            r matches Ok(m) ==> m.wf(),
    {
        let chars = str_to_chars(s);
        let lines = split_lines(&chars);
        let mut manifest = Manifest(Vec::new());
        if lines.len() == 0 {
            return Ok(manifest);
        }
        let nl = lines.len();
        let base = lines[0].indent;
        let mut i: usize = 0;
        while i < nl
            invariant
                nl == lines@.len(),
                i <= nl,
                manifest.wf(),
            decreases nl - i,
        {
            if lines[i].indent != base {
                return Err(invalid_manifest());
            }
            let (gk, gv) = match split_key_value(&lines[i].content) {
                Some(kv) => kv,
                None => {
                    return Err(invalid_manifest());
                },
            };
            let name = chars_to_string(&gk);
            let mut game = Game { files: None, install_dir: None, registry: None, steam: None, gog: None };
            i += 1;
            if gv.len() > 0 {
                if !str_eq_chars("{}", &gv) {
                    return Err(invalid_manifest());
                }
                // an explicitly empty entry has no fields
            } else {
                // fields are the more-indented lines that follow
                if i < nl && lines[i].indent > base {
                    let fi = lines[i].indent;
                    let ghost ib_fi = i;
                    while i < nl && lines[i].indent == fi
                        invariant
                            nl == lines@.len(),
                            ib_fi <= i <= nl,
                        decreases nl - i,
                    {
                        let (fk, fv) = match split_key_value(&lines[i].content) {
                            Some(kv) => kv,
                            None => {
                                return Err(invalid_manifest());
                            },
                        };
                        i += 1;
                        if str_eq_chars("files", &fk) || str_eq_chars("registry", &fk) {
                            let for_registry = str_eq_chars("registry", &fk);
                            let mut fpat: Vec<(String, GameFileEntry)> = Vec::new();
                            let mut rpat: Vec<(String, GameRegistryEntry)> = Vec::new();
                            if fv.len() > 0 {
                                if !str_eq_chars("{}", &fv) {
                                    return Err(invalid_manifest());
                                }
                            } else if i < nl && lines[i].indent > fi {
                                let pi = lines[i].indent;
                                let ghost ib_pi = i;
                                while i < nl && lines[i].indent == pi
                                    invariant
                                        nl == lines@.len(),
                                        ib_pi <= i <= nl,
                                    decreases nl - i,
                                {
                                    let (pk, pv) = match split_key_value(&lines[i].content) {
                                        Some(kv) => kv,
                                        None => {
                                            return Err(invalid_manifest());
                                        },
                                    };
                                    if pv.len() > 0 && !str_eq_chars("{}", &pv) {
                                        return Err(invalid_manifest());
                                    }
                                    let pattern = chars_to_string(&pk);
                                    i += 1;
                                    let mut ftags: Option<Vec<Tag>> = None;
                                    let mut fwhen_file: Option<Vec<GameFileConstraint>> = None;
                                    let mut fwhen_reg: Option<Vec<GameRegistryConstraint>> = None;
                                    if i < nl && lines[i].indent > pi {
                                        let qi = lines[i].indent;
                                        let ghost ib_qi = i;
                                        while i < nl && lines[i].indent == qi
                                            invariant
                                                nl == lines@.len(),
                                                ib_qi <= i <= nl,
                                            decreases nl - i,
                                        {
                                            let (qk, qv) = match split_key_value(
                                                &lines[i].content,
                                            ) {
                                                Some(kv) => kv,
                                                None => {
                                                    return Err(invalid_manifest());
                                                },
                                            };
                                            i += 1;
                                            if str_eq_chars("when", &qk) {
                                                let mut wf_list: Vec<GameFileConstraint> =
                                                    Vec::new();
                                                let mut wr_list: Vec<GameRegistryConstraint> =
                                                    Vec::new();
                                                if qv.len() > 0 {
                                                    if !str_eq_chars("[]", &qv) {
                                                        return Err(invalid_manifest());
                                                    }
                                                } else {
                                                    let ghost iw = i;
                                                    while i < nl && lines[i].indent > qi
                                                        && lines[i].content.len() >= 1
                                                        && lines[i].content[0] == '-'
                                                        invariant
                                                            nl == lines@.len(),
                                                            iw <= i <= nl,
                                                        decreases nl - i,
                                                    {
                                                        let item_indent = lines[i].indent;
                                                        let mut body: Vec<char> = Vec::new();
                                                        let blen = lines[i].content.len();
                                                        let mut b: usize = if blen >= 2 {
                                                            2
                                                        } else {
                                                            blen
                                                        };
                                                        while b < blen
                                                            invariant
                                                                b <= blen,
                                                                i < nl,
                                                                blen == lines@[i as int].content@.len(),
                                                            decreases blen - b,
                                                        {
                                                            body.push(lines[i].content[b]);
                                                            b += 1;
                                                        }
                                                        i += 1;
                                                        let mut c_os: Option<Os> = None;
                                                        let mut c_store: Option<Store> = None;
                                                        if !str_eq_chars("{}", &body) {
                                                            let (ck, cv) = match split_key_value(
                                                                &body,
                                                            ) {
                                                                Some(kv) => kv,
                                                                None => {
                                                                    return Err(
                                                                        invalid_manifest(),
                                                                    );
                                                                },
                                                            };
                                                            if str_eq_chars("os", &ck) {
                                                                c_os = parse_os_word(&cv);
                                                            } else if str_eq_chars(
                                                                "store",
                                                                &ck,
                                                            ) {
                                                                c_store = parse_store_word(&cv);
                                                            } else {
                                                                return Err(invalid_manifest());
                                                            }
                                                            // continuation keys of the same item
                                                            let ghost ibase = i;
                                                            while i < nl && lines[i].indent
                                                                > item_indent
                                                                invariant
                                                                    nl == lines@.len(),
                                                                    ibase <= i <= nl,
                                                                decreases nl - i,
                                                            {
                                                                let (ck2, cv2) =
                                                                    match split_key_value(
                                                                    &lines[i].content,
                                                                ) {
                                                                    Some(kv) => kv,
                                                                    None => {
                                                                        return Err(
                                                                            invalid_manifest(),
                                                                        );
                                                                    },
                                                                };
                                                                if str_eq_chars("os", &ck2) {
                                                                    c_os = parse_os_word(&cv2);
                                                                } else if str_eq_chars(
                                                                    "store",
                                                                    &ck2,
                                                                ) {
                                                                    c_store = parse_store_word(
                                                                        &cv2,
                                                                    );
                                                                } else {
                                                                    return Err(
                                                                        invalid_manifest(),
                                                                    );
                                                                }
                                                                i += 1;
                                                            }
                                                        }
                                                        if for_registry {
                                                            wr_list.push(GameRegistryConstraint {
                                                                store: c_store,
                                                            });
                                                        } else {
                                                            wf_list.push(GameFileConstraint {
                                                                os: c_os,
                                                                store: c_store,
                                                            });
                                                        }
                                                    }
                                                }
                                                if for_registry {
                                                    fwhen_reg = Some(wr_list);
                                                } else {
                                                    fwhen_file = Some(wf_list);
                                                }
                                            } else if str_eq_chars("tags", &qk) {
                                                let mut tags: Vec<Tag> = Vec::new();
                                                if qv.len() > 0 {
                                                    if !str_eq_chars("[]", &qv) {
                                                        return Err(invalid_manifest());
                                                    }
                                                } else {
                                                    let ghost iw = i;
                                                    while i < nl && lines[i].indent > qi
                                                        && lines[i].content.len() >= 1
                                                        && lines[i].content[0] == '-'
                                                        invariant
                                                            nl == lines@.len(),
                                                            iw <= i <= nl,
                                                        decreases nl - i,
                                                    {
                                                        let mut body: Vec<char> = Vec::new();
                                                        let blen = lines[i].content.len();
                                                        let mut b: usize = if blen >= 2 {
                                                            2
                                                        } else {
                                                            blen
                                                        };
                                                        while b < blen
                                                            invariant
                                                                b <= blen,
                                                                i < nl,
                                                                blen == lines@[i as int].content@.len(),
                                                            decreases blen - b,
                                                        {
                                                            body.push(lines[i].content[b]);
                                                            b += 1;
                                                        }
                                                        tags.push(parse_tag_word(&body));
                                                        i += 1;
                                                    }
                                                }
                                                ftags = Some(tags);
                                            } else {
                                                return Err(invalid_manifest());
                                            }
                                        }
                                    }
                                    if for_registry {
                                        rpat.push((pattern, GameRegistryEntry {
                                            tags: ftags,
                                            when: fwhen_reg,
                                        }));
                                    } else {
                                        fpat.push((pattern, GameFileEntry {
                                            tags: ftags,
                                            when: fwhen_file,
                                        }));
                                    }
                                }
                            }
                            if for_registry {
                                game.registry = Some(rpat);
                            } else {
                                game.files = Some(fpat);
                            }
                        } else if str_eq_chars("installDir", &fk) {
                            let mut dirs: Vec<(String, GameInstallDirEntry)> = Vec::new();
                            if fv.len() > 0 {
                                if !str_eq_chars("{}", &fv) {
                                    return Err(invalid_manifest());
                                }
                            } else if i < nl && lines[i].indent > fi {
                                let pi = lines[i].indent;
                                let ghost ib_pi = i;
                                while i < nl && lines[i].indent == pi
                                    invariant
                                        nl == lines@.len(),
                                        ib_pi <= i <= nl,
                                    decreases nl - i,
                                {
                                    let (pk, pv) = match split_key_value(&lines[i].content) {
                                        Some(kv) => kv,
                                        None => {
                                            return Err(invalid_manifest());
                                        },
                                    };
                                    if pv.len() > 0 && !str_eq_chars("{}", &pv) {
                                        return Err(invalid_manifest());
                                    }
                                    dirs.push((chars_to_string(&pk), GameInstallDirEntry {}));
                                    i += 1;
                                }
                            }
                            game.install_dir = Some(dirs);
                        } else if str_eq_chars("steam", &fk) || str_eq_chars("gog", &fk) {
                            let for_gog = str_eq_chars("gog", &fk);
                            let mut steam_id: Option<u32> = None;
                            let mut gog_id: Option<u64> = None;
                            if fv.len() > 0 {
                                if !str_eq_chars("{}", &fv) {
                                    return Err(invalid_manifest());
                                }
                            } else if i < nl && lines[i].indent > fi {
                                let pi = lines[i].indent;
                                let ghost ib_pi = i;
                                while i < nl && lines[i].indent == pi
                                    invariant
                                        nl == lines@.len(),
                                        ib_pi <= i <= nl,
                                    decreases nl - i,
                                {
                                    let (pk, pv) = match split_key_value(&lines[i].content) {
                                        Some(kv) => kv,
                                        None => {
                                            return Err(invalid_manifest());
                                        },
                                    };
                                    if str_eq_chars("id", &pk) {
                                        match parse_u32_chars(&pv) {
                                            Some(v) => {
                                                if for_gog {
                                                    gog_id = Some(v as u64);
                                                } else {
                                                    steam_id = Some(v);
                                                }
                                            },
                                            None => {
                                                return Err(invalid_manifest());
                                            },
                                        }
                                    } else {
                                        return Err(invalid_manifest());
                                    }
                                    i += 1;
                                }
                            }
                            if for_gog {
                                game.gog = Some(GogMetadata { id: gog_id });
                            } else {
                                game.steam = Some(SteamMetadata { id: steam_id });
                            }
                        } else {
                            return Err(invalid_manifest());
                        }
                    }
                } else if i < nl && lines[i].indent < base {
                    return Err(invalid_manifest());
                }
            }
            manifest.add_entry(name, game);
        }
        Ok(manifest)
    }

    /// Decides whether the manifest should be fetched again: always when
    /// forced or when no local copy exists, otherwise only when the cached
    /// copy was last checked a full day or more ago, or never.
    pub fn should_update(
        force: bool,
        manifest_present: bool,
        checked: Option<u64>,
        now: u64,
    ) -> (r: bool)
        ensures
            r == (force || !manifest_present || match checked {
                None => true,
                Some(t) => now >= t + 86400,
            }),
    {
        if force {
            return true;
        }
        if !manifest_present {
            return true;
        }
        match checked {
            None => true,
            Some(t) => {
                if t <= u64::MAX - 86400 {
                    now >= t + 86400
                } else {
                    false
                }
            },
        }
    }

    /// Prefills a custom override for one subject, as the editor offers it:
    /// the subject's name, and — when the manifest declares the subject —
    /// the entry's file and registry pattern keys; empty lists otherwise.
    #[verifier::loop_isolation(false)]
    pub fn prefill_custom(&self, name: &String) -> (c: CustomGame)
        requires
            self.wf(),
        ensures
            c.name@ == name@,
            !c.ignore,
            ({
                if exists|j: int| 0 <= j < self.0@.len() && (#[trigger] self.0@[j]).0@ == name@ {
                    let j = choose|j: int|
                        0 <= j < self.0@.len() && (#[trigger] self.0@[j]).0@ == name@;
                    let entry = self.0@[j].1;
                    &&& c.files@.len() == (match entry.files {
                        Some(fs) => fs@.len(),
                        None => 0,
                    })
                    &&& (entry.files matches Some(fs) ==> forall|i: int|
                        0 <= i < fs@.len() ==> (#[trigger] c.files@[i])@ == fs@[i].0@)
                    &&& c.registry@.len() == (match entry.registry {
                        Some(rs) => rs@.len(),
                        None => 0,
                    })
                    &&& (entry.registry matches Some(rs) ==> forall|i: int|
                        0 <= i < rs@.len() ==> (#[trigger] c.registry@[i])@ == rs@[i].0@)
                } else {
                    c.files@.len() == 0 && c.registry@.len() == 0
                }
            }),
    {
        let mut files: Vec<String> = Vec::new();
        let mut registry: Vec<String> = Vec::new();
        match self.find_game(name.as_str()) {
            Some(j) => {
                proof {
                    let w = choose|w: int|
                        0 <= w < self.0@.len() && (#[trigger] self.0@[w]).0@ == name@;
                    assert(w == j);
                }
                match &self.0[j].1.files {
                    Some(fs) => {
                        let mut i: usize = 0;
                        while i < fs.len()
                            invariant
                                i <= fs@.len(),
                                files@.len() == i,
                                forall|k: int|
                                    0 <= k < i ==> (#[trigger] files@[k])@ == fs@[k].0@,
                            decreases fs@.len() - i,
                        {
                            files.push(fs[i].0.clone());
                            i += 1;
                        }
                    },
                    None => {},
                }
                match &self.0[j].1.registry {
                    Some(rs) => {
                        let mut i: usize = 0;
                        while i < rs.len()
                            invariant
                                i <= rs@.len(),
                                registry@.len() == i,
                                forall|k: int|
                                    0 <= k < i ==> (#[trigger] registry@[k])@ == rs@[k].0@,
                            decreases rs@.len() - i,
                        {
                            registry.push(rs[i].0.clone());
                            i += 1;
                        }
                    },
                    None => {},
                }
            },
            None => {},
        }
        CustomGame { name: name.clone(), ignore: false, files, registry }
    }

    /// Inserts or replaces one subject's entry, keeping names unique: the
    /// entry under `name` becomes `game`, and every other entry is
    /// unchanged.
    pub fn add_entry(&mut self, name: String, game: Game)
        requires
            old(self).wf(),
        ensures
            final(self).wf(),
            ({
                let o = old(self).0@;
                let g = final(self).0@;
                if exists|j: int| 0 <= j < o.len() && (#[trigger] o[j]).0@ == name@ {
                    let j = choose|j: int| 0 <= j < o.len() && (#[trigger] o[j]).0@ == name@;
                    g.len() == o.len() && g[j].0 == name && g[j].1 == game && (forall|k: int|
                        0 <= k < o.len() && k != j ==> g[k] == o[k])
                } else {
                    g.len() == o.len() + 1 && g.last().0 == name && g.last().1 == game && (forall|
                    k: int|
                        0 <= k < o.len() ==> g[k] == o[k])
                }
            }),
    {
        let found = self.find_game(name.as_str());
        match found {
            Some(i) => {
                proof {
                    let o = old(self).0@;
                    let j = choose|j: int| 0 <= j < o.len() && (#[trigger] o[j]).0@ == name@;
                    assert(j == i);
                }
                self.0[i] = (name, game);
            },
            None => {
                self.0.push((name, game));
            },
        }
    }
}

} // verus!
