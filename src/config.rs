use vstd::prelude::*;

verus! {

/// Every option of the server.
#[derive(Debug)]
pub struct Config {
    /// Completion is on.
    pub enabled: bool,
    /// The engine's shared data directory.
    pub shared_data_dir: String,
    /// The engine's user data directory.
    pub user_data_dir: String,
    /// The engine's log directory.
    pub log_dir: String,
    /// The most candidates a menu shows; also the width of sort keys.
    pub max_candidates: usize,
    /// Characters that page the menu, also announced as completion triggers.
    pub paging_characters: Vec<String>,
    /// Where not empty, the pinyin must follow one of these characters.
    pub trigger_characters: Vec<String>,
    /// The pinyin that opens the engine's schema menu.
    pub schema_trigger_character: String,
    /// Where not zero, a deletion at this pinyin length retypes the input.
    pub max_tokens: usize,
    /// Every completion list is marked incomplete.
    pub always_incomplete: bool,
    /// The first candidate is preselected.
    pub preselect_first: bool,
    /// The word before the input is put in front of the filter text.
    pub long_filter_text: bool,
    /// Labels end with the filter text.
    pub show_filter_text_in_label: bool,
    /// Labels begin with the candidate's order.
    pub show_order_in_label: bool,
}

/// The options that may change while the server runs; `None` leaves one as
/// it is.
#[derive(Debug)]
pub struct Settings {
    pub enabled: Option<bool>,
    pub max_candidates: Option<usize>,
    pub paging_characters: Option<Vec<String>>,
    pub trigger_characters: Option<Vec<String>>,
    pub schema_trigger_character: Option<String>,
    pub max_tokens: Option<usize>,
    pub always_incomplete: Option<bool>,
    pub preselect_first: Option<bool>,
    pub long_filter_text: Option<bool>,
    pub show_filter_text_in_label: Option<bool>,
    pub show_order_in_label: Option<bool>,
}

/// A present value replaces the current one.
pub open spec fn updated<T>(current: T, v: Option<T>) -> T {
    match v {
        Some(x) => x,
        None => current,
    }
}

/// Puts a present value in `slot`.
pub fn apply_setting<T>(slot: &mut T, v: Option<T>)
    ensures
        *final(slot) == updated(*old(slot), v),
{
    if let Some(x) = v {
        *slot = x;
    }
}

pub fn default_enabled() -> (r: bool)
    ensures
        r,
{
    true
}

pub fn default_always_incomplete() -> (r: bool)
    ensures
        !r,
{
    false
}

pub fn default_max_candidates() -> (r: usize)
    ensures
        r == 10,
{
    10
}

pub fn default_max_tokens() -> (r: usize)
    ensures
        r == 0,
{
    0
}

pub fn default_trigger_characters() -> (r: Vec<String>)
    ensures
        r@.len() == 0,
{
    Vec::new()
}

pub fn default_paging_characters() -> (r: Vec<String>)
    ensures
        r@.len() == 4,
        r@[0]@ == "-"@,
        r@[1]@ == "="@,
        r@[2]@ == ","@,
        r@[3]@ == "."@,
{
    let mut v: Vec<String> = Vec::new();
    v.push(String::from_str("-"));
    v.push(String::from_str("="));
    v.push(String::from_str(","));
    v.push(String::from_str("."));
    v
}

pub fn default_shared_data_dir() -> (r: String)
    ensures
        r@ == "/usr/share/rime-data"@,
{
    String::from_str("/usr/share/rime-data")
}

pub fn default_schema_trigger_character() -> (r: String)
    ensures
        r@.len() == 0,
{
    String::new()
}

pub fn default_preselect_first() -> (r: bool)
    ensures
        !r,
{
    false
}

impl Config {
    /// The default options, with the user data and log directories given.
    pub fn with_dirs(user_data_dir: String, log_dir: String) -> (r: Config)
        ensures
            r.enabled,
            r.shared_data_dir@ == "/usr/share/rime-data"@,
            r.user_data_dir@ == user_data_dir@,
            r.log_dir@ == log_dir@,
            r.max_candidates == 10,
            r.paging_characters@.len() == 4,
            r.paging_characters@[0]@ == "-"@,
            r.paging_characters@[1]@ == "="@,
            r.paging_characters@[2]@ == ","@,
            r.paging_characters@[3]@ == "."@,
            r.trigger_characters@.len() == 0,
            r.schema_trigger_character@.len() == 0,
            r.max_tokens == 0,
            !r.always_incomplete,
            !r.preselect_first,
            !r.long_filter_text,
            !r.show_filter_text_in_label,
            r.show_order_in_label,
    {
        Config {
            enabled: default_enabled(),
            shared_data_dir: default_shared_data_dir(),
            user_data_dir,
            log_dir,
            max_candidates: default_max_candidates(),
            paging_characters: default_paging_characters(),
            trigger_characters: default_trigger_characters(),
            schema_trigger_character: default_schema_trigger_character(),
            max_tokens: default_max_tokens(),
            always_incomplete: default_always_incomplete(),
            preselect_first: default_preselect_first(),
            long_filter_text: false,
            show_filter_text_in_label: false,
            show_order_in_label: true,
        }
    }

    /// The characters announced to the client as completion triggers: the
    /// paging characters, then the trigger characters.
    pub fn completion_triggers(&self) -> (r: Vec<String>)
        ensures
            r@.len() == self.paging_characters@.len() + self.trigger_characters@.len(),
            forall|i: int|
                0 <= i < r@.len() ==> (#[trigger] r@[i])@ == (self.paging_characters@
                    + self.trigger_characters@)[i]@,
    {
        let mut r: Vec<String> = Vec::new();
        let mut i: usize = 0;
        while i < self.paging_characters.len()
            invariant
                i <= self.paging_characters@.len(),
                r@.len() == i,
                forall|k: int| 0 <= k < i ==> (#[trigger] r@[k])@ == self.paging_characters@[k]@,
            decreases self.paging_characters@.len() - i,
        {
            r.push(self.paging_characters[i].clone());
            i = i + 1;
        }
        let n = self.paging_characters.len();
        let mut j: usize = 0;
        while j < self.trigger_characters.len()
            invariant
                n == self.paging_characters@.len(),
                j <= self.trigger_characters@.len(),
                r@.len() == n + j,
                forall|k: int| 0 <= k < n ==> (#[trigger] r@[k])@ == self.paging_characters@[k]@,
                forall|k: int|
                    n <= k < n + j ==> (#[trigger] r@[k])@ == self.trigger_characters@[k - n]@,
            decreases self.trigger_characters@.len() - j,
        {
            r.push(self.trigger_characters[j].clone());
            j = j + 1;
        }
        r
    }

    /// Applies each present setting and leaves the other options as they
    /// are. Returns whether the trigger characters were set, so that the
    /// input pattern is built again.
    pub fn apply_settings(&mut self, settings: Settings) -> (r: bool)
        ensures
            r == settings.trigger_characters is Some,
            final(self).enabled == updated(old(self).enabled, settings.enabled),
            final(self).max_candidates == updated(old(self).max_candidates, settings.max_candidates),
            final(self).paging_characters@ == updated(
                old(self).paging_characters,
                settings.paging_characters,
            )@,
            final(self).trigger_characters@ == updated(
                old(self).trigger_characters,
                settings.trigger_characters,
            )@,
            final(self).schema_trigger_character@ == updated(
                old(self).schema_trigger_character,
                settings.schema_trigger_character,
            )@,
            final(self).max_tokens == updated(old(self).max_tokens, settings.max_tokens),
            final(self).always_incomplete == updated(
                old(self).always_incomplete,
                settings.always_incomplete,
            ),
            final(self).preselect_first == updated(old(self).preselect_first, settings.preselect_first),
            final(self).long_filter_text == updated(
                old(self).long_filter_text,
                settings.long_filter_text,
            ),
            final(self).show_filter_text_in_label == updated(
                old(self).show_filter_text_in_label,
                settings.show_filter_text_in_label,
            ),
            final(self).show_order_in_label == updated(
                old(self).show_order_in_label,
                settings.show_order_in_label,
            ),
            final(self).shared_data_dir == old(self).shared_data_dir,
            final(self).user_data_dir == old(self).user_data_dir,
            final(self).log_dir == old(self).log_dir,
    {
        let triggers_set = settings.trigger_characters.is_some();
        apply_setting(&mut self.enabled, settings.enabled);
        apply_setting(&mut self.max_candidates, settings.max_candidates);
        apply_setting(&mut self.paging_characters, settings.paging_characters);
        apply_setting(&mut self.trigger_characters, settings.trigger_characters);
        apply_setting(&mut self.schema_trigger_character, settings.schema_trigger_character);
        apply_setting(&mut self.max_tokens, settings.max_tokens);
        apply_setting(&mut self.always_incomplete, settings.always_incomplete);
        apply_setting(&mut self.preselect_first, settings.preselect_first);
        apply_setting(&mut self.long_filter_text, settings.long_filter_text);
        apply_setting(&mut self.show_filter_text_in_label, settings.show_filter_text_in_label);
        apply_setting(&mut self.show_order_in_label, settings.show_order_in_label);
        triggers_set
    }
}

} // verus!
