//! Configuration data model: rules, gestures, actions, settings, and the
//! validator that decides whether a configuration may be loaded.

use vstd::prelude::*;
use crate::strutil::has_arrow;
use crate::strutil::has_plus;
use crate::strutil::trim_seq;
use crate::strutil::trim_str;
use crate::strutil::contains_arrow;
use crate::strutil::contains_plus;
use crate::trigger::is_combo_type;
use crate::trigger::map_view;
use crate::trigger::resolve_token;
use crate::trigger::resolve_token_spec;
use crate::trigger::trigger_parts;
use crate::trigger::trigger_parts_spec;

verus! {

/// The seven gesture kinds a rule can bind.
#[derive(Debug, Clone, Copy, PartialEq, Eq, Structural)]
pub enum RuleType {
    Click,
    DoubleClick,
    ShortPress,
    LongPress,
    ComboClick,
    ComboShortPress,
    ComboLongPress,
}

#[derive(Debug, Clone, Copy, PartialEq, Eq, Structural)]
pub enum BuiltinCommand {
    MuteToggle,
    OpenVoiceAssistant,
    OpenCamera,
    ToggleFlashlight,
    ToggleDoNotDisturb,
}

#[derive(Debug, Clone, Copy, PartialEq, Eq, Structural)]
pub enum VolumeDirection {
    Up,
    Down,
}

#[derive(Debug, Clone, Copy, PartialEq, Eq, Structural)]
pub enum BrightnessDirection {
    Up,
    Down,
}

/// Payload of a launch-intent action.  Extras are an association list of
/// key and value text, keys unique.
#[derive(Debug)]
pub struct IntentSpec {
    pub action: Option<String>,
    pub package: Option<String>,
    pub class_name: Option<String>,
    pub data: Option<String>,
    pub category: Vec<String>,
    pub extras: Option<Vec<(String, String)>>,
}

/// What a rule does when its gesture fires.
#[derive(Debug)]
pub enum Action {
    SendKey { key_code: u16 },
    Shell { cmd: String },
    BuiltinCommand { command: BuiltinCommand },
    MultiTap { codes: Vec<u16>, interval_ms: u32 },
    LaunchApp { package: String, activity: Option<String> },
    LaunchIntent { intent: IntentSpec },
    ToggleScreen,
    ToggleRule { rule_id: String },
    VolumeControl { direction: VolumeDirection },
    BrightnessControl { direction: BrightnessDirection },
    Swipe { dx: i32, dy: i32, duration_ms: u32 },
    Intercept,
    Macro { actions: Vec<Box<Action>> },
}

/// One gesture binding.
#[derive(Debug)]
pub struct Rule {
    pub id: String,
    pub trigger: String,
    pub rule_type: RuleType,
    pub action: Action,
    pub enabled: bool,
    pub description: String,
}

/// Millisecond thresholds and global switches.
#[derive(Debug)]
pub struct GlobalSettings {
    pub long_press_threshold_ms: u32,
    pub short_press_threshold_ms: u32,
    pub double_tap_interval_ms: u32,
    pub combination_timeout_ms: u32,
    pub enable_haptic: bool,
    pub enable_wakelock: bool,
    pub log_level: String,
    pub rule_timeout_ms: u32,
}

/// The whole configuration snapshot.  The hardware map is an association
/// list from key code to symbolic name; names are unique by construction.
#[derive(Debug)]
pub struct Config {
    pub device_name: String,
    pub hardware_map: Vec<(u16, String)>,
    pub rules: Vec<Rule>,
    pub settings: GlobalSettings,
}

// ---------------------------------------------------------------------------
// Mathematical models: the same data with text as character sequences.
// ---------------------------------------------------------------------------

pub ghost struct IntentModel {
    pub action: Option<Seq<char>>,
    pub package: Option<Seq<char>>,
    pub class_name: Option<Seq<char>>,
    pub data: Option<Seq<char>>,
    pub category: Seq<Seq<char>>,
    pub extras: Option<Seq<(Seq<char>, Seq<char>)>>,
}

pub ghost enum ActionModel {
    SendKey { key_code: u16 },
    Shell { cmd: Seq<char> },
    BuiltinCommand { command: BuiltinCommand },
    MultiTap { codes: Seq<u16>, interval_ms: u32 },
    LaunchApp { package: Seq<char>, activity: Option<Seq<char>> },
    LaunchIntent { intent: IntentModel },
    ToggleScreen,
    ToggleRule { rule_id: Seq<char> },
    VolumeControl { direction: VolumeDirection },
    BrightnessControl { direction: BrightnessDirection },
    Swipe { dx: i32, dy: i32, duration_ms: u32 },
    Intercept,
    Macro { actions: Seq<ActionModel> },
}

pub ghost struct RuleModel {
    pub id: Seq<char>,
    pub trigger: Seq<char>,
    pub rule_type: RuleType,
    pub action: ActionModel,
    pub enabled: bool,
    pub description: Seq<char>,
}

pub open spec fn opt_str_view(o: Option<String>) -> Option<Seq<char>> {
    match o {
        Some(s) => Some(s@),
        None => None,
    }
}

pub open spec fn strs_view(v: Seq<String>) -> Seq<Seq<char>> {
    v.map_values(|s: String| s@)
}

pub open spec fn pairs_view(v: Seq<(String, String)>) -> Seq<(Seq<char>, Seq<char>)> {
    v.map_values(|p: (String, String)| (p.0@, p.1@))
}

pub open spec fn intent_model(i: IntentSpec) -> IntentModel {
    IntentModel {
        action: opt_str_view(i.action),
        package: opt_str_view(i.package),
        class_name: opt_str_view(i.class_name),
        data: opt_str_view(i.data),
        category: strs_view(i.category@),
        extras: match i.extras {
            Some(v) => Some(pairs_view(v@)),
            None => None,
        },
    }
}

pub open spec fn action_model(a: Action) -> ActionModel
    decreases a,
{
    match a {
        Action::SendKey { key_code } => ActionModel::SendKey { key_code },
        Action::Shell { cmd } => ActionModel::Shell { cmd: cmd@ },
        Action::BuiltinCommand { command } => ActionModel::BuiltinCommand { command },
        Action::MultiTap { codes, interval_ms } => ActionModel::MultiTap {
            codes: codes@,
            interval_ms,
        },
        Action::LaunchApp { package, activity } => ActionModel::LaunchApp {
            package: package@,
            activity: opt_str_view(activity),
        },
        Action::LaunchIntent { intent } => ActionModel::LaunchIntent {
            intent: intent_model(intent),
        },
        Action::ToggleScreen => ActionModel::ToggleScreen,
        Action::ToggleRule { rule_id } => ActionModel::ToggleRule { rule_id: rule_id@ },
        Action::VolumeControl { direction } => ActionModel::VolumeControl { direction },
        Action::BrightnessControl { direction } => ActionModel::BrightnessControl { direction },
        Action::Swipe { dx, dy, duration_ms } => ActionModel::Swipe { dx, dy, duration_ms },
        Action::Intercept => ActionModel::Intercept,
        Action::Macro { actions } => ActionModel::Macro { actions: actions_model(actions@) },
    }
}

pub open spec fn actions_model(s: Seq<Box<Action>>) -> Seq<ActionModel>
    decreases s,
{
    if s.len() == 0 {
        Seq::empty()
    } else {
        actions_model(s.drop_last()).push(action_model(*s.last()))
    }
}

pub open spec fn rule_model(r: Rule) -> RuleModel {
    RuleModel {
        id: r.id@,
        trigger: r.trigger@,
        rule_type: r.rule_type,
        action: action_model(r.action),
        enabled: r.enabled,
        description: r.description@,
    }
}

pub open spec fn rules_model(rs: Seq<Rule>) -> Seq<RuleModel> {
    rs.map_values(|r: Rule| rule_model(r))
}

pub broadcast proof fn lemma_actions_model_len(s: Seq<Box<Action>>)
    ensures
        (#[trigger] actions_model(s)).len() == s.len(),
        forall|i: int| 0 <= i < s.len() ==> actions_model(s)[i] == action_model(*s[i]),
    decreases s,
{
    if s.len() > 0 {
        lemma_actions_model_len(s.drop_last());
    }
}

// ---------------------------------------------------------------------------
// Default values.
// ---------------------------------------------------------------------------

pub fn default_true() -> (r: bool)
    ensures
        r == true,
{
    true
}

pub fn default_long_press_threshold() -> (r: u32)
    ensures
        r == 800,
{
    800
}

pub fn default_short_press_threshold() -> (r: u32)
    ensures
        r == 300,
{
    300
}

pub fn default_double_tap_interval() -> (r: u32)
    ensures
        r == 300,
{
    300
}

pub fn default_combination_timeout() -> (r: u32)
    ensures
        r == 200,
{
    200
}

pub fn default_tap_interval() -> (r: u32)
    ensures
        r == 50,
{
    50
}

pub fn default_log_level() -> (r: String)
    ensures
        r@ == "info"@,
{
    "info".to_owned()
}

pub fn default_rule_timeout() -> (r: u32)
    ensures
        r == 5000,
{
    5000
}

impl Default for GlobalSettings {
    /// The boot-time thresholds used when the configuration omits them.
    fn default() -> (r: Self)
        ensures
            r.long_press_threshold_ms == 800,
            r.short_press_threshold_ms == 300,
            r.double_tap_interval_ms == 300,
            r.combination_timeout_ms == 200,
            r.enable_haptic == true,
            r.enable_wakelock == true,
            r.log_level@ == "info"@,
            r.rule_timeout_ms == 5000,
    {
        GlobalSettings {
            long_press_threshold_ms: default_long_press_threshold(),
            short_press_threshold_ms: default_short_press_threshold(),
            double_tap_interval_ms: default_double_tap_interval(),
            combination_timeout_ms: default_combination_timeout(),
            enable_haptic: default_true(),
            enable_wakelock: default_true(),
            log_level: default_log_level(),
            rule_timeout_ms: default_rule_timeout(),
        }
    }
}

impl Default for Config {
    /// The built-in configuration: the usual phone hardware keys and no
    /// rules.
    fn default() -> (r: Self)
        ensures
            r.device_name@ == "gpio-keys"@,
            r.hardware_map@.len() == 5,
            r.rules@.len() == 0,
            r.settings.short_press_threshold_ms == 300,
            r.settings.long_press_threshold_ms == 800,
            r.settings.double_tap_interval_ms == 300,
            r.settings.combination_timeout_ms == 200,
            map_view(r.hardware_map@) == seq![
                (115u16, "VOL_UP"@),
                (114u16, "VOL_DOWN"@),
                (116u16, "POWER"@),
                (102u16, "HOME"@),
                (139u16, "MENU"@),
            ],
    {
        let mut hardware_map: Vec<(u16, String)> = Vec::new();
        hardware_map.push((115, "VOL_UP".to_owned()));
        hardware_map.push((114, "VOL_DOWN".to_owned()));
        hardware_map.push((116, "POWER".to_owned()));
        hardware_map.push((102, "HOME".to_owned()));
        hardware_map.push((139, "MENU".to_owned()));
        let r = Config {
            device_name: "gpio-keys".to_owned(),
            hardware_map,
            rules: Vec::new(),
            settings: GlobalSettings::default(),
        };
        proof {
            assert(map_view(r.hardware_map@) =~= seq![
                (115u16, "VOL_UP"@),
                (114u16, "VOL_DOWN"@),
                (116u16, "POWER"@),
                (102u16, "HOME"@),
                (139u16, "MENU"@),
            ]);
        }
        r
    }
}

// ---------------------------------------------------------------------------
// Validation.
// ---------------------------------------------------------------------------

/// Why a configuration was rejected.  Variants carry the offending rule id
/// and token where one exists.
#[derive(Debug, Clone)]
pub enum ConfigError {
    EmptyDeviceName,
    ShortPressZero,
    LongPressBelowShortPress,
    DoubleTapZero,
    CombinationTimeoutZero,
    EmptyRuleId,
    EmptyTrigger { id: String },
    DuplicateRuleId { id: String },
    ComboTriggerArrow { id: String },
    ComboTriggerNotTwoKeys { id: String },
    UnknownComboToken { id: String, token: String },
    IdenticalComboKeys { id: String },
    NonComboTriggerArrow { id: String },
    NonComboTriggerPlus { id: String },
    UnknownTriggerToken { id: String, token: String },
}

pub ghost enum ConfigErrorModel {
    EmptyDeviceName,
    ShortPressZero,
    LongPressBelowShortPress,
    DoubleTapZero,
    CombinationTimeoutZero,
    EmptyRuleId,
    EmptyTrigger { id: Seq<char> },
    DuplicateRuleId { id: Seq<char> },
    ComboTriggerArrow { id: Seq<char> },
    ComboTriggerNotTwoKeys { id: Seq<char> },
    UnknownComboToken { id: Seq<char>, token: Seq<char> },
    IdenticalComboKeys { id: Seq<char> },
    NonComboTriggerArrow { id: Seq<char> },
    NonComboTriggerPlus { id: Seq<char> },
    UnknownTriggerToken { id: Seq<char>, token: Seq<char> },
}

pub open spec fn config_error_model(e: ConfigError) -> ConfigErrorModel {
    match e {
        ConfigError::EmptyDeviceName => ConfigErrorModel::EmptyDeviceName,
        ConfigError::ShortPressZero => ConfigErrorModel::ShortPressZero,
        ConfigError::LongPressBelowShortPress => ConfigErrorModel::LongPressBelowShortPress,
        ConfigError::DoubleTapZero => ConfigErrorModel::DoubleTapZero,
        ConfigError::CombinationTimeoutZero => ConfigErrorModel::CombinationTimeoutZero,
        ConfigError::EmptyRuleId => ConfigErrorModel::EmptyRuleId,
        ConfigError::EmptyTrigger { id } => ConfigErrorModel::EmptyTrigger { id: id@ },
        ConfigError::DuplicateRuleId { id } => ConfigErrorModel::DuplicateRuleId { id: id@ },
        ConfigError::ComboTriggerArrow { id } => ConfigErrorModel::ComboTriggerArrow { id: id@ },
        ConfigError::ComboTriggerNotTwoKeys { id } => ConfigErrorModel::ComboTriggerNotTwoKeys {
            id: id@,
        },
        ConfigError::UnknownComboToken { id, token } => ConfigErrorModel::UnknownComboToken {
            id: id@,
            token: token@,
        },
        ConfigError::IdenticalComboKeys { id } => ConfigErrorModel::IdenticalComboKeys { id: id@ },
        ConfigError::NonComboTriggerArrow { id } => ConfigErrorModel::NonComboTriggerArrow {
            id: id@,
        },
        ConfigError::NonComboTriggerPlus { id } => ConfigErrorModel::NonComboTriggerPlus {
            id: id@,
        },
        ConfigError::UnknownTriggerToken { id, token } => ConfigErrorModel::UnknownTriggerToken {
            id: id@,
            token: token@,
        },
    }
}

/// The first complaint about rule `i` or a later rule, or `None` when all
/// remaining rules are acceptable.
pub open spec fn rules_error_from(
    rules: Seq<Rule>,
    map: Seq<(u16, Seq<char>)>,
    i: int,
) -> Option<ConfigErrorModel>
    decreases rules.len() - i,
{
    if i < 0 || i >= rules.len() {
        None
    } else {
        let r = rules[i];
        if trim_seq(r.id@).len() == 0 {
            Some(ConfigErrorModel::EmptyRuleId)
        } else if trim_seq(r.trigger@).len() == 0 {
            Some(ConfigErrorModel::EmptyTrigger { id: r.id@ })
        } else if exists|j: int| 0 <= j < i && #[trigger] rules[j].id@ == r.id@ {
            Some(ConfigErrorModel::DuplicateRuleId { id: r.id@ })
        } else if is_combo_type(r.rule_type) {
            if has_arrow(r.trigger@) {
                Some(ConfigErrorModel::ComboTriggerArrow { id: r.id@ })
            } else {
                let parts = trigger_parts_spec(r.trigger@);
                if parts.len() != 2 {
                    Some(ConfigErrorModel::ComboTriggerNotTwoKeys { id: r.id@ })
                } else if resolve_token_spec(map, parts[0]) is None {
                    Some(ConfigErrorModel::UnknownComboToken { id: r.id@, token: parts[0] })
                } else if resolve_token_spec(map, parts[1]) is None {
                    Some(ConfigErrorModel::UnknownComboToken { id: r.id@, token: parts[1] })
                } else if resolve_token_spec(map, parts[0]) == resolve_token_spec(map, parts[1]) {
                    Some(ConfigErrorModel::IdenticalComboKeys { id: r.id@ })
                } else {
                    rules_error_from(rules, map, i + 1)
                }
            }
        } else {
            if has_arrow(r.trigger@) {
                Some(ConfigErrorModel::NonComboTriggerArrow { id: r.id@ })
            } else if has_plus(r.trigger@) {
                Some(ConfigErrorModel::NonComboTriggerPlus { id: r.id@ })
            } else if resolve_token_spec(map, r.trigger@) is None {
                Some(ConfigErrorModel::UnknownTriggerToken { id: r.id@, token: r.trigger@ })
            } else {
                rules_error_from(rules, map, i + 1)
            }
        }
    }
}

/// The first complaint about the configuration, checked in a fixed order:
/// device name, thresholds, then each rule in turn.
pub open spec fn validate_spec(c: Config) -> Option<ConfigErrorModel> {
    if trim_seq(c.device_name@).len() == 0 {
        Some(ConfigErrorModel::EmptyDeviceName)
    } else if c.settings.short_press_threshold_ms == 0 {
        Some(ConfigErrorModel::ShortPressZero)
    } else if c.settings.long_press_threshold_ms < c.settings.short_press_threshold_ms {
        Some(ConfigErrorModel::LongPressBelowShortPress)
    } else if c.settings.double_tap_interval_ms == 0 {
        Some(ConfigErrorModel::DoubleTapZero)
    } else if c.settings.combination_timeout_ms == 0 {
        Some(ConfigErrorModel::CombinationTimeoutZero)
    } else {
        rules_error_from(c.rules@, map_view(c.hardware_map@), 0)
    }
}

impl Config {
    /// Checks the configuration and reports the first violation: empty
    /// device name, threshold ordering, duplicate rule ids, and triggers
    /// that do not parse under their gesture kind.
    pub fn validate(&self) -> (r: Result<(), ConfigError>)
        ensures
            match r {
                Ok(()) => validate_spec(*self) is None,
                Err(e) => validate_spec(*self) == Some(config_error_model(e)),
            },
    {
        if trim_str(self.device_name.as_str()).unicode_len() == 0 {
            return Err(ConfigError::EmptyDeviceName);
        }
        if self.settings.short_press_threshold_ms == 0 {
            return Err(ConfigError::ShortPressZero);
        }
        if self.settings.long_press_threshold_ms < self.settings.short_press_threshold_ms {
            return Err(ConfigError::LongPressBelowShortPress);
        }
        if self.settings.double_tap_interval_ms == 0 {
            return Err(ConfigError::DoubleTapZero);
        }
        if self.settings.combination_timeout_ms == 0 {
            return Err(ConfigError::CombinationTimeoutZero);
        }
        let n = self.rules.len();
        let mut i: usize = 0;
        while i < n
            invariant
                0 <= i <= n,
                n == self.rules@.len(),
                rules_error_from(self.rules@, map_view(self.hardware_map@), 0)
                    == rules_error_from(self.rules@, map_view(self.hardware_map@), i as int),
            decreases n - i,
        {
            let r = &self.rules[i];
            let ghost map = map_view(self.hardware_map@);
            if trim_str(r.id.as_str()).unicode_len() == 0 {
                return Err(ConfigError::EmptyRuleId);
            }
            if trim_str(r.trigger.as_str()).unicode_len() == 0 {
                return Err(ConfigError::EmptyTrigger { id: r.id.clone() });
            }
            let mut j: usize = 0;
            let mut dup: bool = false;
            while j < i
                invariant
                    0 <= j <= i <= n,
                    n == self.rules@.len(),
                    dup == exists|k: int|
                        0 <= k < j && #[trigger] self.rules@[k].id@ == self.rules@[i as int].id@,
                decreases i - j,
            {
                if self.rules[j].id == self.rules[i].id {
                    dup = true;
                }
                j = j + 1;
            }
            if dup {
                return Err(ConfigError::DuplicateRuleId { id: r.id.clone() });
            }
            if is_combo_type(r.rule_type) {
                if contains_arrow(r.trigger.as_str()) {
                    return Err(ConfigError::ComboTriggerArrow { id: r.id.clone() });
                }
                let parts = trigger_parts(r.trigger.as_str());
                if parts.len() != 2 {
                    return Err(ConfigError::ComboTriggerNotTwoKeys { id: r.id.clone() });
                }
                let left = resolve_token(&self.hardware_map, parts[0].as_str());
                if left.is_none() {
                    return Err(ConfigError::UnknownComboToken {
                        id: r.id.clone(),
                        token: parts[0].clone(),
                    });
                }
                let right = resolve_token(&self.hardware_map, parts[1].as_str());
                if right.is_none() {
                    return Err(ConfigError::UnknownComboToken {
                        id: r.id.clone(),
                        token: parts[1].clone(),
                    });
                }
                if left.unwrap() == right.unwrap() {
                    return Err(ConfigError::IdenticalComboKeys { id: r.id.clone() });
                }
            } else {
                if contains_arrow(r.trigger.as_str()) {
                    return Err(ConfigError::NonComboTriggerArrow { id: r.id.clone() });
                }
                if contains_plus(r.trigger.as_str()) {
                    return Err(ConfigError::NonComboTriggerPlus { id: r.id.clone() });
                }
                if resolve_token(&self.hardware_map, r.trigger.as_str()).is_none() {
                    return Err(ConfigError::UnknownTriggerToken {
                        id: r.id.clone(),
                        token: r.trigger.clone(),
                    });
                }
            }
            i = i + 1;
        }
        Ok(())
    }
}

// ---------------------------------------------------------------------------
// Deep copies with known models.
// ---------------------------------------------------------------------------

/// Copies a vector of strings; the copy holds the same text.
pub fn clone_strings(v: &Vec<String>) -> (r: Vec<String>)
    ensures
        r@ == v@,
{
    let mut out: Vec<String> = Vec::new();
    let n = v.len();
    let mut i: usize = 0;
    while i < n
        invariant
            0 <= i <= n,
            n == v@.len(),
            out@ == v@.subrange(0, i as int),
        decreases n - i,
    {
        out.push(v[i].clone());
        proof {
            assert(out@ =~= v@.subrange(0, i + 1));
        }
        i = i + 1;
    }
    proof {
        assert(v@.subrange(0, n as int) =~= v@);
    }
    out
}

pub fn clone_string_pairs(v: &Vec<(String, String)>) -> (r: Vec<(String, String)>)
    ensures
        r@ == v@,
{
    let mut out: Vec<(String, String)> = Vec::new();
    let n = v.len();
    let mut i: usize = 0;
    while i < n
        invariant
            0 <= i <= n,
            n == v@.len(),
            out@ == v@.subrange(0, i as int),
        decreases n - i,
    {
        out.push((v[i].0.clone(), v[i].1.clone()));
        proof {
            assert(out@[i as int] == v@[i as int]);
            assert(out@ =~= v@.subrange(0, i + 1));
        }
        i = i + 1;
    }
    proof {
        assert(v@.subrange(0, n as int) =~= v@);
    }
    out
}

pub fn clone_codes(v: &Vec<u16>) -> (r: Vec<u16>)
    ensures
        r@ == v@,
{
    let mut out: Vec<u16> = Vec::new();
    let n = v.len();
    let mut i: usize = 0;
    while i < n
        invariant
            0 <= i <= n,
            n == v@.len(),
            out@ == v@.subrange(0, i as int),
        decreases n - i,
    {
        out.push(v[i]);
        proof {
            assert(out@ =~= v@.subrange(0, i + 1));
        }
        i = i + 1;
    }
    proof {
        assert(v@.subrange(0, n as int) =~= v@);
    }
    out
}

impl Clone for IntentSpec {
    /// Deep copy; the copy has the same model.
    fn clone(&self) -> (r: Self)
        ensures
            intent_model(r) == intent_model(*self),
    {
        let r = IntentSpec {
            action: self.action.clone(),
            package: self.package.clone(),
            class_name: self.class_name.clone(),
            data: self.data.clone(),
            category: clone_strings(&self.category),
            extras: match &self.extras {
                Some(v) => Some(clone_string_pairs(v)),
                None => None,
            },
        };
        r
    }
}

impl Clone for Action {
    /// Deep copy; the copy has the same model.
    fn clone(&self) -> (r: Self)
        ensures
            action_model(r) == action_model(*self),
        decreases self,
    {
        match self {
            Action::SendKey { key_code } => Action::SendKey { key_code: *key_code },
            Action::Shell { cmd } => Action::Shell { cmd: cmd.clone() },
            Action::BuiltinCommand { command } => Action::BuiltinCommand { command: *command },
            Action::MultiTap { codes, interval_ms } => Action::MultiTap {
                codes: clone_codes(codes),
                interval_ms: *interval_ms,
            },
            Action::LaunchApp { package, activity } => Action::LaunchApp {
                package: package.clone(),
                activity: activity.clone(),
            },
            Action::LaunchIntent { intent } => Action::LaunchIntent { intent: intent.clone() },
            Action::ToggleScreen => Action::ToggleScreen,
            Action::ToggleRule { rule_id } => Action::ToggleRule { rule_id: rule_id.clone() },
            Action::VolumeControl { direction } => Action::VolumeControl { direction: *direction },
            Action::BrightnessControl { direction } => Action::BrightnessControl {
                direction: *direction,
            },
            Action::Swipe { dx, dy, duration_ms } => Action::Swipe {
                dx: *dx,
                dy: *dy,
                duration_ms: *duration_ms,
            },
            Action::Intercept => Action::Intercept,
            Action::Macro { actions } => {
                let mut out: Vec<Box<Action>> = Vec::new();
                let n = actions.len();
                let mut i: usize = 0;
                while i < n
                    invariant
                        0 <= i <= n,
                        n == actions@.len(),
                        out@.len() == i,
                        forall|k: int|
                            0 <= k < i ==> action_model(*(#[trigger] out@[k])) == action_model(
                                *actions@[k],
                            ),
                    decreases n - i,
                {
                    let a: &Action = &actions[i];
                    out.push(Box::new(a.clone()));
                    i = i + 1;
                }
                proof {
                    lemma_actions_model_eq(out@, actions@);
                }
                Action::Macro { actions: out }
            },
        }
    }
}

/// Two action vectors whose elements have equal models have equal list
/// models.
proof fn lemma_actions_model_eq(a: Seq<Box<Action>>, b: Seq<Box<Action>>)
    requires
        a.len() == b.len(),
        forall|k: int| 0 <= k < a.len() ==> action_model(*(#[trigger] a[k])) == action_model(*b[k]),
    ensures
        actions_model(a) == actions_model(b),
    decreases a,
{
    if a.len() > 0 {
        lemma_actions_model_eq(a.drop_last(), b.drop_last());
    }
}

impl Clone for Rule {
    /// Deep copy; the copy has the same model.
    fn clone(&self) -> (r: Self)
        ensures
            rule_model(r) == rule_model(*self),
    {
        Rule {
            id: self.id.clone(),
            trigger: self.trigger.clone(),
            rule_type: self.rule_type,
            action: self.action.clone(),
            enabled: self.enabled,
            description: self.description.clone(),
        }
    }
}

/// Copies a rule list; the copy has the same model.
pub fn clone_rules(v: &Vec<Rule>) -> (r: Vec<Rule>)
    ensures
        rules_model(r@) == rules_model(v@),
        r@.len() == v@.len(),
{
    let mut out: Vec<Rule> = Vec::new();
    let n = v.len();
    let mut i: usize = 0;
    while i < n
        invariant
            0 <= i <= n,
            n == v@.len(),
            out@.len() == i,
            forall|k: int| 0 <= k < i ==> rule_model(#[trigger] out@[k]) == rule_model(v@[k]),
        decreases n - i,
    {
        out.push(v[i].clone());
        i = i + 1;
    }
    proof {
        assert(rules_model(out@) =~= rules_model(v@));
    }
    out
}

/// Copies the hardware map; the copy has the same view.
pub fn clone_hardware_map(v: &Vec<(u16, String)>) -> (r: Vec<(u16, String)>)
    ensures
        r@ == v@,
{
    let mut out: Vec<(u16, String)> = Vec::new();
    let n = v.len();
    let mut i: usize = 0;
    while i < n
        invariant
            0 <= i <= n,
            n == v@.len(),
            out@ == v@.subrange(0, i as int),
        decreases n - i,
    {
        out.push((v[i].0, v[i].1.clone()));
        proof {
            assert(out@[i as int] == v@[i as int]);
            assert(out@ =~= v@.subrange(0, i + 1));
        }
        i = i + 1;
    }
    proof {
        assert(v@.subrange(0, n as int) =~= v@);
    }
    out
}

impl Clone for GlobalSettings {
    /// Copy; every field keeps its value.
    fn clone(&self) -> (r: Self)
        ensures
            r.long_press_threshold_ms == self.long_press_threshold_ms,
            r.short_press_threshold_ms == self.short_press_threshold_ms,
            r.double_tap_interval_ms == self.double_tap_interval_ms,
            r.combination_timeout_ms == self.combination_timeout_ms,
            r.enable_haptic == self.enable_haptic,
            r.enable_wakelock == self.enable_wakelock,
            r.log_level@ == self.log_level@,
            r.rule_timeout_ms == self.rule_timeout_ms,
    {
        GlobalSettings {
            long_press_threshold_ms: self.long_press_threshold_ms,
            short_press_threshold_ms: self.short_press_threshold_ms,
            double_tap_interval_ms: self.double_tap_interval_ms,
            combination_timeout_ms: self.combination_timeout_ms,
            enable_haptic: self.enable_haptic,
            enable_wakelock: self.enable_wakelock,
            log_level: self.log_level.clone(),
            rule_timeout_ms: self.rule_timeout_ms,
        }
    }
}

impl Clone for Config {
    /// Deep copy; every part keeps its model.
    fn clone(&self) -> (r: Self)
        ensures
            r.device_name@ == self.device_name@,
            r.hardware_map@ == self.hardware_map@,
            rules_model(r.rules@) == rules_model(self.rules@),
            r.rules@.len() == self.rules@.len(),
            r.settings.long_press_threshold_ms == self.settings.long_press_threshold_ms,
            r.settings.short_press_threshold_ms == self.settings.short_press_threshold_ms,
            r.settings.double_tap_interval_ms == self.settings.double_tap_interval_ms,
            r.settings.combination_timeout_ms == self.settings.combination_timeout_ms,
            r.settings.enable_haptic == self.settings.enable_haptic,
            r.settings.enable_wakelock == self.settings.enable_wakelock,
            r.settings.log_level@ == self.settings.log_level@,
            r.settings.rule_timeout_ms == self.settings.rule_timeout_ms,
    {
        Config {
            device_name: self.device_name.clone(),
            hardware_map: clone_hardware_map(&self.hardware_map),
            rules: clone_rules(&self.rules),
            settings: self.settings.clone(),
        }
    }
}

// ---------------------------------------------------------------------------
// Deep equality at the model level.
// ---------------------------------------------------------------------------

fn opt_string_eq(a: &Option<String>, b: &Option<String>) -> (r: bool)
    ensures
        r == (opt_str_view(*a) == opt_str_view(*b)),
{
    match (a, b) {
        (Some(x), Some(y)) => *x == *y,
        (None, None) => true,
        _ => false,
    }
}

fn strings_eq(a: &Vec<String>, b: &Vec<String>) -> (r: bool)
    ensures
        r == (strs_view(a@) == strs_view(b@)),
{
    if a.len() != b.len() {
        proof {
            assert(strs_view(a@).len() == a@.len());
            assert(strs_view(b@).len() == b@.len());
        }
        return false;
    }
    let n = a.len();
    let mut i: usize = 0;
    while i < n
        invariant
            0 <= i <= n,
            n == a@.len(),
            n == b@.len(),
            forall|k: int| 0 <= k < i ==> (#[trigger] a@[k])@ == b@[k]@,
        decreases n - i,
    {
        if !(a[i] == b[i]) {
            proof {
                assert(strs_view(a@)[i as int] == a@[i as int]@);
                assert(strs_view(b@)[i as int] == b@[i as int]@);
            }
            return false;
        }
        i = i + 1;
    }
    proof {
        assert(strs_view(a@) =~= strs_view(b@));
    }
    true
}

fn string_pairs_eq(a: &Vec<(String, String)>, b: &Vec<(String, String)>) -> (r: bool)
    ensures
        r == (pairs_view(a@) == pairs_view(b@)),
{
    if a.len() != b.len() {
        proof {
            assert(pairs_view(a@).len() == a@.len());
            assert(pairs_view(b@).len() == b@.len());
        }
        return false;
    }
    let n = a.len();
    let mut i: usize = 0;
    while i < n
        invariant
            0 <= i <= n,
            n == a@.len(),
            n == b@.len(),
            forall|k: int|
                0 <= k < i ==> ((#[trigger] a@[k]).0@ == b@[k].0@ && a@[k].1@ == b@[k].1@),
        decreases n - i,
    {
        if !(a[i].0 == b[i].0) || !(a[i].1 == b[i].1) {
            proof {
                assert(pairs_view(a@)[i as int] == (a@[i as int].0@, a@[i as int].1@));
                assert(pairs_view(b@)[i as int] == (b@[i as int].0@, b@[i as int].1@));
            }
            return false;
        }
        i = i + 1;
    }
    proof {
        assert forall|k: int| 0 <= k < n ==> pairs_view(a@)[k] == pairs_view(b@)[k] by {}
        assert(pairs_view(a@) =~= pairs_view(b@));
    }
    true
}

fn codes_eq(a: &Vec<u16>, b: &Vec<u16>) -> (r: bool)
    ensures
        r == (a@ == b@),
{
    if a.len() != b.len() {
        return false;
    }
    let n = a.len();
    let mut i: usize = 0;
    while i < n
        invariant
            0 <= i <= n,
            n == a@.len(),
            n == b@.len(),
            forall|k: int| 0 <= k < i ==> a@[k] == b@[k],
        decreases n - i,
    {
        if a[i] != b[i] {
            return false;
        }
        i = i + 1;
    }
    proof {
        assert(a@ =~= b@);
    }
    true
}

fn intent_eq(a: &IntentSpec, b: &IntentSpec) -> (r: bool)
    ensures
        r == (intent_model(*a) == intent_model(*b)),
{
    let part1 = opt_string_eq(&a.action, &b.action) && opt_string_eq(&a.package, &b.package);
    let part2 = opt_string_eq(&a.class_name, &b.class_name) && opt_string_eq(&a.data, &b.data);
    let part3 = strings_eq(&a.category, &b.category);
    let part4 = match (&a.extras, &b.extras) {
        (Some(x), Some(y)) => string_pairs_eq(x, y),
        (None, None) => true,
        _ => false,
    };
    part1 && part2 && part3 && part4
}

/// Whether two actions have the same model.
pub fn action_eq(a: &Action, b: &Action) -> (r: bool)
    ensures
        r == (action_model(*a) == action_model(*b)),
    decreases a,
{
    match (a, b) {
        (Action::SendKey { key_code: x }, Action::SendKey { key_code: y }) => x == y,
        (Action::Shell { cmd: x }, Action::Shell { cmd: y }) => *x == *y,
        (Action::BuiltinCommand { command: x }, Action::BuiltinCommand { command: y }) => x == y,
        (
            Action::MultiTap { codes: xc, interval_ms: xi },
            Action::MultiTap { codes: yc, interval_ms: yi },
        ) => codes_eq(xc, yc) && xi == yi,
        (
            Action::LaunchApp { package: xp, activity: xa },
            Action::LaunchApp { package: yp, activity: ya },
        ) => *xp == *yp && opt_string_eq(xa, ya),
        (Action::LaunchIntent { intent: x }, Action::LaunchIntent { intent: y }) => intent_eq(x, y),
        (Action::ToggleScreen, Action::ToggleScreen) => true,
        (Action::ToggleRule { rule_id: x }, Action::ToggleRule { rule_id: y }) => *x == *y,
        (Action::VolumeControl { direction: x }, Action::VolumeControl { direction: y }) => x == y,
        (
            Action::BrightnessControl { direction: x },
            Action::BrightnessControl { direction: y },
        ) => x == y,
        (
            Action::Swipe { dx: xa, dy: xb, duration_ms: xc },
            Action::Swipe { dx: ya, dy: yb, duration_ms: yc },
        ) => xa == ya && xb == yb && xc == yc,
        (Action::Intercept, Action::Intercept) => true,
        (Action::Macro { actions: xs }, Action::Macro { actions: ys }) => {
            if xs.len() != ys.len() {
                proof {
                    lemma_actions_model_len(xs@);
                    lemma_actions_model_len(ys@);
                }
                false
            } else {
                let n = xs.len();
                let mut i: usize = 0;
                let mut same: bool = true;
                while i < n
                    invariant
                        0 <= i <= n,
                        n == xs@.len(),
                        n == ys@.len(),
                        same == forall|k: int|
                            0 <= k < i ==> action_model(*(#[trigger] xs@[k])) == action_model(
                                *ys@[k],
                            ),
                    decreases n - i,
                {
                    let xe: &Action = &xs[i];
                    let ye: &Action = &ys[i];
                    let e = action_eq(xe, ye);
                    proof {
                        if same && e {
                            assert(forall|k: int|
                                0 <= k < i + 1 ==> action_model(*(#[trigger] xs@[k]))
                                    == action_model(*ys@[k]));
                        }
                    }
                    same = same && e;
                    i = i + 1;
                }
                proof {
                    lemma_actions_model_len(xs@);
                    lemma_actions_model_len(ys@);
                    if same {
                        assert(actions_model(xs@) =~= actions_model(ys@));
                    } else {
                        let k = choose|k: int|
                            0 <= k < n && action_model(*(#[trigger] xs@[k])) != action_model(
                                *ys@[k],
                            );
                        assert(actions_model(xs@)[k] != actions_model(ys@)[k]);
                    }
                }
                same
            }
        },
        _ => {
            proof {
                assert(action_model(*a) != action_model(*b));
            }
            false
        },
    }
}

/// Whether two rules have the same model.
pub fn rule_eq(a: &Rule, b: &Rule) -> (r: bool)
    ensures
        r == (rule_model(*a) == rule_model(*b)),
{
    a.id == b.id && a.trigger == b.trigger && a.rule_type == b.rule_type && a.enabled == b.enabled
        && a.description == b.description && action_eq(&a.action, &b.action)
}

} // verus!
