//! The settings of the user: read from and written into a JSON document.

use vstd::prelude::*;
use crate::blank::trim;
#[allow(unused_imports)]
use crate::blank::trimmed;
use crate::json::{
    json_copy, json_empty_object, json_flag, json_from_text, json_insert, json_is_object,
    json_member, json_text, parse_json, write_json,
};
#[allow(unused_imports)]
use crate::json::{
    entry, flag_at, json_of, nested_at_most, parsed_json, pretty_json, reads_back, text_at, Json,
    NESTING_LIMIT,
};

verus! {

pub const GENERAL_SECTION: &'static str = "General";

pub const TEXT_TAB_SECTION: &'static str = "TextTab";

pub const CANVAS_SECTION: &'static str = "Canvas";

pub const GENERAL_TYPING_PANEL_LAYOUT_KEY: &'static str = "typing_panel_layout";

pub const CANVAS_CACHE_PAGES_KEY: &'static str = "cache_pages";

/// What a settings file holds under a key of a section; nothing where there is no file or where it
/// cannot be read.
pub open spec fn stored_at(raw: Option<Seq<char>>, section: Seq<char>, key: Seq<char>) -> Option<Json> {
    match raw {
        Some(t) => match parsed_json(t) {
            Some(j) => entry(j, section, key),
            None => None,
        },
        None => None,
    }
}

pub open spec fn raw_text(raw: Option<&str>) -> Option<Seq<char>> {
    match raw {
        Some(t) => Some(t@),
        None => None,
    }
}

/// The text under a key of a section of a settings file.
pub fn stored_text(raw: Option<&str>, section: &str, key: &str) -> (r: Option<String>)
    ensures
        r is Some <==> text_at(stored_at(raw_text(raw), section@, key@)) is Some,
        r is Some ==> text_at(stored_at(raw_text(raw), section@, key@)) == Some((r->0)@),
{
    match raw {
        Some(t) => match parse_json(t) {
            Ok(j) => match json_member(&j, section) {
                Some(s) => match json_member(s, key) {
                    Some(v) => match json_text(v) {
                        Some(x) => Some(x.to_owned()),
                        None => None,
                    },
                    None => None,
                },
                None => None,
            },
            Err(_) => None,
        },
        None => None,
    }
}

/// The truth value under a key of a section of a settings file.
pub fn stored_flag(raw: Option<&str>, section: &str, key: &str) -> (r: Option<bool>)
    ensures
        r == flag_at(stored_at(raw_text(raw), section@, key@)),
{
    match raw {
        Some(t) => match parse_json(t) {
            Ok(j) => match json_member(&j, section) {
                Some(s) => match json_member(s, key) {
                    Some(v) => json_flag(v),
                    None => None,
                },
                None => None,
            },
            Err(_) => None,
        },
        None => None,
    }
}

/// The stored name of the layout of the typing panel.
pub fn load_typing_panel_layout(raw: Option<&str>) -> (r: Option<String>)
    ensures
        r is Some <==> text_at(
            stored_at(raw_text(raw), GENERAL_SECTION@, GENERAL_TYPING_PANEL_LAYOUT_KEY@),
        ) is Some,
        r is Some ==> text_at(
            stored_at(raw_text(raw), GENERAL_SECTION@, GENERAL_TYPING_PANEL_LAYOUT_KEY@),
        ) == Some((r->0)@),
{
    stored_text(raw, GENERAL_SECTION, GENERAL_TYPING_PANEL_LAYOUT_KEY)
}

/// What a settings file says about memory: the name of a profile, and whether pages are cached,
/// which is what older files hold.
pub struct StoredMemoryProfile {
    pub name: Option<String>,
    pub cache_pages: Option<bool>,
}

pub fn load_memory_profile(raw: Option<&str>, key: &str) -> (r: StoredMemoryProfile)
    ensures
        r.name is Some <==> text_at(stored_at(raw_text(raw), GENERAL_SECTION@, key@)) is Some,
        r.name is Some ==> text_at(stored_at(raw_text(raw), GENERAL_SECTION@, key@)) == Some(
            (r.name->0)@,
        ),
        r.cache_pages == flag_at(
            stored_at(raw_text(raw), CANVAS_SECTION@, CANVAS_CACHE_PAGES_KEY@),
        ),
{
    StoredMemoryProfile {
        name: stored_text(raw, GENERAL_SECTION, key),
        cache_pages: stored_flag(raw, CANVAS_SECTION, CANVAS_CACHE_PAGES_KEY),
    }
}

/// Where the memory profile comes from.
#[derive(Clone, Copy, Debug, PartialEq, Eq, Structural)]
pub enum ProfileSource {
    /// The stored name stands for a profile.
    Named,
    Medium,
    Low,
    Default,
}

/// Chooses the memory profile: the named one, else one by whether pages are cached, else the
/// default.
pub fn choose_memory_profile(name_known: bool, cache_pages: Option<bool>) -> (s: ProfileSource)
    ensures
        s == if name_known {
            ProfileSource::Named
        } else {
            match cache_pages {
                Some(true) => ProfileSource::Medium,
                Some(false) => ProfileSource::Low,
                None => ProfileSource::Default,
            }
        },
{
    if name_known {
        return ProfileSource::Named;
    }
    match cache_pages {
        Some(b) => if b {
            ProfileSource::Medium
        } else {
            ProfileSource::Low
        },
        None => ProfileSource::Default,
    }
}

/// The folder of the projects as it is kept: without white space at its ends, and the default one
/// where nothing is left.
pub fn normalize_projects_dir_value(raw_value: &str, default_root: &str) -> (r: String)
    ensures
        r@ == if trimmed(raw_value@).len() == 0 {
            default_root@
        } else {
            trimmed(raw_value@)
        },
{
    let t = trim(raw_value);
    if t.is_empty() {
        default_root.to_owned()
    } else {
        t.to_owned()
    }
}

/// The members of an object; none for what is not an object.
pub open spec fn members(j: Option<Json>) -> Map<Seq<char>, Json> {
    match j {
        Some(Json::Fields(m)) => m,
        _ => Map::empty(),
    }
}

/// The document with a text put under a key of a section.
pub open spec fn with_text(j: Option<Json>, section: Seq<char>, key: Seq<char>, value: Seq<char>) -> Json {
    let root = members(j);
    let inner = members(
        if root.contains_key(section) {
            Some(root[section])
        } else {
            None
        },
    );
    Json::Fields(root.insert(section, Json::Fields(inner.insert(key, Json::Text(value)))))
}

/// Why settings could not be written.
pub enum SettingsError {
    /// The file that is there is not a JSON document.
    Parse(serde_json::Error),
    /// The document could not be written.
    Write(serde_json::Error),
}

/// The document of a settings file.
pub open spec fn document(raw: Option<Seq<char>>) -> Option<Json> {
    match raw {
        Some(t) => parsed_json(t),
        None => None,
    }
}

/// Putting a text under a key leaves every other key of every section as it was.
pub proof fn other_settings_stay(
    j: Option<Json>,
    section: Seq<char>,
    key: Seq<char>,
    value: Seq<char>,
    s: Seq<char>,
    k: Seq<char>,
)
    ensures
        entry(with_text(j, section, key, value), section, key) == Some(Json::Text(value)),
        (s != section || k != key) ==> entry(with_text(j, section, key, value), s, k) == match j {
            Some(d) => entry(d, s, k),
            None => None,
        },
{
}

proof fn lemma_nesting(j: Option<Json>, section: Seq<char>, key: Seq<char>, value: Seq<char>)
    requires
        j is Some ==> nested_at_most(j->0, NESTING_LIMIT as nat),
    ensures
        nested_at_most(with_text(j, section, key, value), NESTING_LIMIT as nat),
{
    reveal_with_fuel(nested_at_most, 4);
    let root = members(j);
    let inner = members(
        if root.contains_key(section) {
            Some(root[section])
        } else {
            None
        },
    );
    let sect = Json::Fields(inner.insert(key, Json::Text(value)));
    assert forall|k: Seq<char>| inner.insert(key, Json::Text(value)).contains_key(k) implies nested_at_most(
        #[trigger] inner.insert(key, Json::Text(value))[k],
        125,
    ) by {
        if k != key {
            assert(inner.contains_key(k));
            assert(root.contains_key(section));
            assert(nested_at_most(root[section], 126));
            assert(nested_at_most(inner[k], 125));
        }
    }
    assert(nested_at_most(sect, 126));
    assert forall|k: Seq<char>| root.insert(section, sect).contains_key(k) implies nested_at_most(
        #[trigger] root.insert(section, sect)[k],
        126,
    ) by {
        if k != section {
            assert(root.contains_key(k));
            assert(nested_at_most(root[k], 126));
        }
    }
}

/// Writes a text under a key of a section of a settings file.  A file that cannot be read counts
/// as empty, unless `strict` asks for an error; what is not an object is replaced by one.  The new
/// file holds the text under the key, and under every other key the texts and truth values that
/// were there.
pub fn with_setting(raw: Option<&str>, section: &str, key: &str, value: &str, strict: bool) -> (r:
    Result<String, SettingsError>)
    ensures
        r is Ok <==> !(strict && raw is Some && document(raw_text(raw)) is None),
        r is Err ==> r->Err_0 is Parse,
        r is Ok ==> {
            let out = (r->Ok_0)@;
            let before = document(raw_text(raw));
            &&& out == pretty_json(with_text(before, section@, key@, value@))
            &&& text_at(stored_at(Some(out), section@, key@)) == Some(value@)
            &&& forall|s: Seq<char>, k: Seq<char>|
                s != section@ || k != key@ ==> #[trigger] text_at(stored_at(Some(out), s, k))
                    == text_at(stored_at(raw_text(raw), s, k)) && flag_at(
                    stored_at(Some(out), s, k),
                ) == flag_at(stored_at(raw_text(raw), s, k))
        },
{
    let ghost before = document(raw_text(raw));
    let mut root = match raw {
        Some(t) => match parse_json(t) {
            Ok(v) => v,
            Err(e) => {
                if strict {
                    return Err(SettingsError::Parse(e));
                }
                json_empty_object()
            },
        },
        None => json_empty_object(),
    };
    proof {
        lemma_nesting(before, section@, key@, value@);
    }
    if !json_is_object(&root) {
        root = json_empty_object();
    }
    assert(json_of(root) == Json::Fields(members(before)));
    let mut inner = match json_member(&root, section) {
        Some(v) => if json_is_object(v) {
            json_copy(v)
        } else {
            json_empty_object()
        },
        None => json_empty_object(),
    };
    json_insert(&mut inner, key, json_from_text(value));
    json_insert(&mut root, section, inner);
    let ghost after = with_text(before, section@, key@, value@);
    assert(json_of(root) == after);
    match write_json(&root) {
        Ok(out) => {
            proof {
                assert(reads_back(out@, after));
                let back = parsed_json(out@)->0;
                other_settings_stay(before, section@, key@, value@, section@, key@);
                assert(text_at(entry(back, section@, key@)) == text_at(
                    entry(after, section@, key@),
                ));
                assert forall|s: Seq<char>, k: Seq<char>|
                    s != section@ || k != key@ implies #[trigger] text_at(
                    stored_at(Some(out@), s, k),
                ) == text_at(stored_at(raw_text(raw), s, k)) && flag_at(
                    stored_at(Some(out@), s, k),
                ) == flag_at(stored_at(raw_text(raw), s, k)) by {
                    other_settings_stay(before, section@, key@, value@, s, k);
                    assert(text_at(entry(back, s, k)) == text_at(entry(after, s, k)));
                    assert(flag_at(entry(back, s, k)) == flag_at(entry(after, s, k)));
                }
            }
            Ok(out)
        },
        Err(e) => Err(SettingsError::Write(e)),
    }
}

/// The parts of the settings.
#[derive(Clone, Copy, Debug, PartialEq, Eq, Structural)]
pub enum SettingsPane {
    General,
    CanvasRibbon,
    AiBackend,
    Hotkeys,
}

impl SettingsPane {
    pub fn title(self) -> (s: &'static str)
        ensures
            s@ == match self {
                SettingsPane::General => "Общие настройки"@,
                SettingsPane::CanvasRibbon => "Лента и пузыри"@,
                SettingsPane::AiBackend => "ИИ бэкенд"@,
                SettingsPane::Hotkeys => "Горячие клавиши"@,
            },
    {
        match self {
            SettingsPane::General => "Общие настройки",
            SettingsPane::CanvasRibbon => "Лента и пузыри",
            SettingsPane::AiBackend => "ИИ бэкенд",
            SettingsPane::Hotkeys => "Горячие клавиши",
        }
    }
}

/// After how many milliseconds the settings are drawn again.
pub fn repaint_after_ms(process_running: bool) -> (ms: u64)
    ensures
        ms == if process_running {
            120u64
        } else {
            350u64
        },
{
    if process_running {
        120
    } else {
        350
    }
}

/// What is done with the requests that wait in the queue of the saver.
#[derive(Clone, Copy, Debug, PartialEq, Eq, Structural)]
pub enum SaveDecision {
    /// The request at this place is saved, and the earlier ones are passed over.
    Save(usize),
    /// The saver ends without saving.
    Stop,
    /// There is nothing to do.
    Wait,
}

/// Decides what to save: `waiting` tells for each entry of the queue whether it is a request or
/// the order to end.
pub fn coalesce_requests(waiting: &Vec<bool>) -> (d: SaveDecision)
    ensures
        d == if waiting@.len() == 0 {
            SaveDecision::Wait
        } else if waiting@.contains(false) {
            SaveDecision::Stop
        } else {
            SaveDecision::Save((waiting@.len() - 1) as usize)
        },
{
    if waiting.len() == 0 {
        return SaveDecision::Wait;
    }
    let mut i: usize = 0;
    while i < waiting.len()
        invariant
            i <= waiting@.len(),
            forall|k: int| 0 <= k < i ==> waiting@[k],
        decreases waiting@.len() - i,
    {
        if !waiting[i] {
            assert(waiting@[i as int] == false);
            return SaveDecision::Stop;
        }
        i += 1;
    }
    SaveDecision::Save(waiting.len() - 1)
}

/// The revision of the word lists that was last taken over.
pub struct SpellcheckRevision {
    pub seen: u64,
}

impl SpellcheckRevision {
    /// Whether the word lists have to be read again.
    pub fn refresh_needed(&mut self, current: u64) -> (b: bool)
        ensures
            b == (current != old(self).seen),
            final(self).seen == current,
    {
        let b = current != self.seen;
        self.seen = current;
        b
    }
}

} // verus!
