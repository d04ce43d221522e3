//! The rule editor's data shapes and the conversions between them and
//! the configuration: behaviors, conditions, action lists, and the
//! checked application of an edited document to the running
//! configuration.  The HTTP plumbing around these stays outside the
//! library.

use vstd::prelude::*;
use crate::config::Action;
use crate::config::ActionModel;
use crate::config::BrightnessDirection;
use crate::config::BuiltinCommand;
use crate::config::Config;
use crate::config::ConfigError;
use crate::config::IntentModel;
use crate::config::IntentSpec;
use crate::config::Rule;
use crate::config::RuleType;
use crate::config::VolumeDirection;
use crate::config::action_model;
use crate::config::actions_model;
use crate::config::clone_hardware_map;
use crate::config::clone_string_pairs;
use crate::config::clone_strings;
use crate::config::config_error_model;
use crate::config::intent_model;
use crate::config::lemma_actions_model_len;
use crate::config::opt_str_view;
use crate::config::pairs_view;
use crate::config::strs_view;
use crate::config::validate_spec;
use crate::strutil::dec_str;
use crate::strutil::first_plus;
use crate::strutil::has_plus;
use crate::strutil::parse_u16;
use crate::strutil::parse_u16_seq;
use crate::strutil::trim_seq;
use crate::strutil::trim_str;
use crate::strutil::u16_to_dec_string;
use crate::sys::random_uuid_string;
use crate::trigger::map_name_lookup;
use crate::trigger::map_view;

verus! {

/// The gesture kind as the editor names it.
#[derive(Debug, Clone, Copy, PartialEq, Eq, Structural)]
pub enum WebUiBehaviorDto {
    Click,
    ShortPress,
    LongPress,
    DoubleClick,
    ComboClick,
    ComboShortPress,
    ComboLongPress,
}

#[derive(Debug, Clone, Copy, PartialEq, Eq, Structural)]
pub enum WebUiBuiltinCommandDto {
    MuteToggle,
    OpenVoiceAssistant,
    OpenCamera,
    ToggleFlashlight,
    ToggleDoNotDisturb,
}

#[derive(Debug, Clone, Copy, PartialEq, Eq, Structural)]
pub enum WebUiVolumeDirectionDto {
    Up,
    Down,
}

#[derive(Debug, Clone, Copy, PartialEq, Eq, Structural)]
pub enum WebUiBrightnessDirectionDto {
    Up,
    Down,
}

/// One condition of a rule; the editor's first version knows exactly one
/// kind, a key event.
#[derive(Debug, Clone, Copy)]
pub enum WebUiConditionDto {
    KeyEvent {
        key_code: Option<u16>,
        combo_key_code: Option<u16>,
        behavior: WebUiBehaviorDto,
    },
}

/// An intent as the editor sends it; extras are an association list.
#[derive(Debug)]
pub struct WebUiIntentDto {
    pub action: Option<String>,
    pub package: Option<String>,
    pub class_name: Option<String>,
    pub data: Option<String>,
    pub category: Vec<String>,
    pub extras: Vec<(String, String)>,
}

/// One action as the editor sends it.
#[derive(Debug)]
pub enum WebUiActionDto {
    RunShell { command: String },
    SendKey { key_code: u16 },
    BuiltinCommand { command: WebUiBuiltinCommandDto },
    LaunchApp { package: String, activity: Option<String> },
    LaunchIntent { intent: WebUiIntentDto },
    MultiTap { codes: Vec<u16>, interval_ms: u32 },
    ToggleScreen,
    ToggleRule { rule_id: String },
    VolumeControl { direction: WebUiVolumeDirectionDto },
    BrightnessControl { direction: WebUiBrightnessDirectionDto },
    Swipe { dx: i32, dy: i32, duration_ms: u32 },
    Intercept,
    Macro { actions: Vec<WebUiActionDto> },
}

/// One rule as the editor sends it.
#[derive(Debug)]
pub struct WebUiRuleDto {
    pub id: Option<String>,
    pub enabled: bool,
    pub description: String,
    pub condition_logic: String,
    pub conditions: Vec<WebUiConditionDto>,
    pub actions: Vec<WebUiActionDto>,
}

/// The whole document the editor reads and writes.
#[derive(Debug)]
pub struct WebUiConfigDto {
    pub version: u32,
    pub device_name: String,
    pub hardware_map: Vec<(u16, String)>,
    pub double_press_interval_ms: u32,
    pub long_press_min_ms: u32,
    pub short_press_min_ms: u32,
    pub combination_timeout_ms: u32,
    pub rule_timeout_ms: u32,
    pub rules: Vec<WebUiRuleDto>,
}

/// One installed application, as listed to the editor.
#[derive(Debug, Clone)]
pub struct AppItemDto {
    pub package: String,
    pub name: String,
}

/// The application list handed to the editor.
#[derive(Debug, Clone)]
pub struct AppListDto {
    pub apps: Vec<AppItemDto>,
}

/// Shapes the cache's sorted application list for the editor.
pub fn app_list_dto(apps: Vec<(String, String)>) -> (r: AppListDto)
    ensures
        r.apps@.len() == apps@.len(),
        forall|i: int|
            0 <= i < apps@.len() ==> (#[trigger] r.apps@[i]).package@ == apps@[i].0@
                && r.apps@[i].name@ == apps@[i].1@,
{
    let n = apps.len();
    let mut items: Vec<AppItemDto> = Vec::new();
    let mut i: usize = 0;
    let mut apps = apps;
    let ghost a0 = apps@;
    while i < n
        invariant
            0 <= i <= n,
            apps@.len() == n - i,
            forall|k: int| 0 <= k < n - i ==> apps@[k] == a0[k + i],
            items@.len() == i,
            forall|k: int|
                0 <= k < i ==> (#[trigger] items@[k]).package@ == a0[k].0@ && items@[k].name@
                    == a0[k].1@,
        decreases n - i,
    {
        let (package, name) = apps.remove(0);
        items.push(AppItemDto { package, name });
        i = i + 1;
    }
    AppListDto { apps: items }
}

// ---------------------------------------------------------------------------
// Defaults the document's optional fields fall back to.
// ---------------------------------------------------------------------------

pub fn default_true_bool() -> (r: bool)
    ensures
        r == true,
{
    true
}

pub fn default_multitap_interval_ms() -> (r: u32)
    ensures
        r == 50,
{
    50
}

pub fn default_combination_timeout_ms() -> (r: u32)
    ensures
        r == 200,
{
    200
}

pub fn default_rule_timeout_ms() -> (r: u32)
    ensures
        r == 5000,
{
    5000
}

pub fn default_condition_logic() -> (r: String)
    ensures
        r@ == "and"@,
{
    "and".to_owned()
}

// ---------------------------------------------------------------------------
// Behavior and enum mappings.
// ---------------------------------------------------------------------------

pub open spec fn behavior_of_rule_type(t: RuleType) -> WebUiBehaviorDto {
    match t {
        RuleType::Click => WebUiBehaviorDto::Click,
        RuleType::ShortPress => WebUiBehaviorDto::ShortPress,
        RuleType::LongPress => WebUiBehaviorDto::LongPress,
        RuleType::DoubleClick => WebUiBehaviorDto::DoubleClick,
        RuleType::ComboClick => WebUiBehaviorDto::ComboClick,
        RuleType::ComboShortPress => WebUiBehaviorDto::ComboShortPress,
        RuleType::ComboLongPress => WebUiBehaviorDto::ComboLongPress,
    }
}

pub open spec fn rule_type_of_behavior(b: WebUiBehaviorDto) -> RuleType {
    match b {
        WebUiBehaviorDto::Click => RuleType::Click,
        WebUiBehaviorDto::ShortPress => RuleType::ShortPress,
        WebUiBehaviorDto::LongPress => RuleType::LongPress,
        WebUiBehaviorDto::DoubleClick => RuleType::DoubleClick,
        WebUiBehaviorDto::ComboClick => RuleType::ComboClick,
        WebUiBehaviorDto::ComboShortPress => RuleType::ComboShortPress,
        WebUiBehaviorDto::ComboLongPress => RuleType::ComboLongPress,
    }
}

pub open spec fn spec_behavior_is_combo(b: WebUiBehaviorDto) -> bool {
    b == WebUiBehaviorDto::ComboClick || b == WebUiBehaviorDto::ComboShortPress || b
        == WebUiBehaviorDto::ComboLongPress
}

impl WebUiBehaviorDto {
    /// The editor's name for a gesture kind.
    pub fn from_rule_type(t: RuleType) -> (r: Self)
        ensures
            r == behavior_of_rule_type(t),
    {
        match t {
            RuleType::Click => WebUiBehaviorDto::Click,
            RuleType::ShortPress => WebUiBehaviorDto::ShortPress,
            RuleType::LongPress => WebUiBehaviorDto::LongPress,
            RuleType::DoubleClick => WebUiBehaviorDto::DoubleClick,
            RuleType::ComboClick => WebUiBehaviorDto::ComboClick,
            RuleType::ComboShortPress => WebUiBehaviorDto::ComboShortPress,
            RuleType::ComboLongPress => WebUiBehaviorDto::ComboLongPress,
        }
    }

    /// The gesture kind the editor's name stands for.
    pub fn into_rule_type(self) -> (r: RuleType)
        ensures
            r == rule_type_of_behavior(self),
    {
        match self {
            WebUiBehaviorDto::Click => RuleType::Click,
            WebUiBehaviorDto::ShortPress => RuleType::ShortPress,
            WebUiBehaviorDto::LongPress => RuleType::LongPress,
            WebUiBehaviorDto::DoubleClick => RuleType::DoubleClick,
            WebUiBehaviorDto::ComboClick => RuleType::ComboClick,
            WebUiBehaviorDto::ComboShortPress => RuleType::ComboShortPress,
            WebUiBehaviorDto::ComboLongPress => RuleType::ComboLongPress,
        }
    }

    /// Whether the behavior needs two keys.
    pub fn is_combo(self) -> (r: bool)
        ensures
            r == spec_behavior_is_combo(self),
    {
        match self {
            WebUiBehaviorDto::ComboClick => true,
            WebUiBehaviorDto::ComboShortPress => true,
            WebUiBehaviorDto::ComboLongPress => true,
            _ => false,
        }
    }
}

pub open spec fn builtin_of_dto(d: WebUiBuiltinCommandDto) -> BuiltinCommand {
    match d {
        WebUiBuiltinCommandDto::MuteToggle => BuiltinCommand::MuteToggle,
        WebUiBuiltinCommandDto::OpenVoiceAssistant => BuiltinCommand::OpenVoiceAssistant,
        WebUiBuiltinCommandDto::OpenCamera => BuiltinCommand::OpenCamera,
        WebUiBuiltinCommandDto::ToggleFlashlight => BuiltinCommand::ToggleFlashlight,
        WebUiBuiltinCommandDto::ToggleDoNotDisturb => BuiltinCommand::ToggleDoNotDisturb,
    }
}

pub open spec fn dto_of_builtin(c: BuiltinCommand) -> WebUiBuiltinCommandDto {
    match c {
        BuiltinCommand::MuteToggle => WebUiBuiltinCommandDto::MuteToggle,
        BuiltinCommand::OpenVoiceAssistant => WebUiBuiltinCommandDto::OpenVoiceAssistant,
        BuiltinCommand::OpenCamera => WebUiBuiltinCommandDto::OpenCamera,
        BuiltinCommand::ToggleFlashlight => WebUiBuiltinCommandDto::ToggleFlashlight,
        BuiltinCommand::ToggleDoNotDisturb => WebUiBuiltinCommandDto::ToggleDoNotDisturb,
    }
}

fn builtin_from_dto(d: WebUiBuiltinCommandDto) -> (r: BuiltinCommand)
    ensures
        r == builtin_of_dto(d),
{
    match d {
        WebUiBuiltinCommandDto::MuteToggle => BuiltinCommand::MuteToggle,
        WebUiBuiltinCommandDto::OpenVoiceAssistant => BuiltinCommand::OpenVoiceAssistant,
        WebUiBuiltinCommandDto::OpenCamera => BuiltinCommand::OpenCamera,
        WebUiBuiltinCommandDto::ToggleFlashlight => BuiltinCommand::ToggleFlashlight,
        WebUiBuiltinCommandDto::ToggleDoNotDisturb => BuiltinCommand::ToggleDoNotDisturb,
    }
}

fn builtin_to_dto(c: BuiltinCommand) -> (r: WebUiBuiltinCommandDto)
    ensures
        r == dto_of_builtin(c),
{
    match c {
        BuiltinCommand::MuteToggle => WebUiBuiltinCommandDto::MuteToggle,
        BuiltinCommand::OpenVoiceAssistant => WebUiBuiltinCommandDto::OpenVoiceAssistant,
        BuiltinCommand::OpenCamera => WebUiBuiltinCommandDto::OpenCamera,
        BuiltinCommand::ToggleFlashlight => WebUiBuiltinCommandDto::ToggleFlashlight,
        BuiltinCommand::ToggleDoNotDisturb => WebUiBuiltinCommandDto::ToggleDoNotDisturb,
    }
}

pub open spec fn volume_of_dto(d: WebUiVolumeDirectionDto) -> VolumeDirection {
    match d {
        WebUiVolumeDirectionDto::Up => VolumeDirection::Up,
        WebUiVolumeDirectionDto::Down => VolumeDirection::Down,
    }
}

pub open spec fn brightness_of_dto(d: WebUiBrightnessDirectionDto) -> BrightnessDirection {
    match d {
        WebUiBrightnessDirectionDto::Up => BrightnessDirection::Up,
        WebUiBrightnessDirectionDto::Down => BrightnessDirection::Down,
    }
}

// ---------------------------------------------------------------------------
// The editor's action model, shared with the configuration's.
// ---------------------------------------------------------------------------

/// The abstract action an editor-shaped action stands for.  Empty extras
/// stand for no extras at all.
pub open spec fn webui_intent_model(d: WebUiIntentDto) -> IntentModel {
    IntentModel {
        action: opt_str_view(d.action),
        package: opt_str_view(d.package),
        class_name: opt_str_view(d.class_name),
        data: opt_str_view(d.data),
        category: strs_view(d.category@),
        extras: if d.extras@.len() == 0 {
            None
        } else {
            Some(pairs_view(d.extras@))
        },
    }
}

pub open spec fn webui_action_model(d: WebUiActionDto) -> ActionModel
    decreases d,
{
    match d {
        WebUiActionDto::RunShell { command } => ActionModel::Shell { cmd: command@ },
        WebUiActionDto::SendKey { key_code } => ActionModel::SendKey { key_code },
        WebUiActionDto::BuiltinCommand { command } => ActionModel::BuiltinCommand {
            command: builtin_of_dto(command),
        },
        WebUiActionDto::LaunchApp { package, activity } => ActionModel::LaunchApp {
            package: package@,
            activity: opt_str_view(activity),
        },
        WebUiActionDto::LaunchIntent { intent } => ActionModel::LaunchIntent {
            intent: webui_intent_model(intent),
        },
        WebUiActionDto::MultiTap { codes, interval_ms } => ActionModel::MultiTap {
            codes: codes@,
            interval_ms,
        },
        WebUiActionDto::ToggleScreen => ActionModel::ToggleScreen,
        WebUiActionDto::ToggleRule { rule_id } => ActionModel::ToggleRule { rule_id: rule_id@ },
        WebUiActionDto::VolumeControl { direction } => ActionModel::VolumeControl {
            direction: volume_of_dto(direction),
        },
        WebUiActionDto::BrightnessControl { direction } => ActionModel::BrightnessControl {
            direction: brightness_of_dto(direction),
        },
        WebUiActionDto::Swipe { dx, dy, duration_ms } => ActionModel::Swipe {
            dx,
            dy,
            duration_ms,
        },
        WebUiActionDto::Intercept => ActionModel::Intercept,
        WebUiActionDto::Macro { actions } => ActionModel::Macro {
            actions: webui_actions_model(actions@),
        },
    }
}

pub open spec fn webui_actions_model(s: Seq<WebUiActionDto>) -> Seq<ActionModel>
    decreases s,
{
    if s.len() == 0 {
        Seq::empty()
    } else {
        webui_actions_model(s.drop_last()).push(webui_action_model(s.last()))
    }
}

pub proof fn lemma_webui_actions_model_len(s: Seq<WebUiActionDto>)
    ensures
        webui_actions_model(s).len() == s.len(),
        forall|i: int| 0 <= i < s.len() ==> webui_actions_model(s)[i] == webui_action_model(s[i]),
    decreases s,
{
    if s.len() > 0 {
        lemma_webui_actions_model_len(s.drop_last());
    }
}

/// An intent with empty extras collapsed to no extras, as crossing the
/// editor boundary leaves it.
pub open spec fn normal_intent(m: IntentModel) -> IntentModel {
    IntentModel {
        extras: match m.extras {
            Some(es) => if es.len() == 0 {
                None
            } else {
                Some(es)
            },
            None => None,
        },
        ..m
    }
}

/// An action with every intent's empty extras collapsed, recursively.
pub open spec fn normal_action(a: ActionModel) -> ActionModel
    decreases a,
{
    match a {
        ActionModel::LaunchIntent { intent } => ActionModel::LaunchIntent {
            intent: normal_intent(intent),
        },
        ActionModel::Macro { actions } => ActionModel::Macro { actions: normal_actions(actions) },
        _ => a,
    }
}

pub open spec fn normal_actions(s: Seq<ActionModel>) -> Seq<ActionModel>
    decreases s,
{
    if s.len() == 0 {
        Seq::empty()
    } else {
        normal_actions(s.drop_last()).push(normal_action(s.last()))
    }
}

pub proof fn lemma_normal_actions_len(s: Seq<ActionModel>)
    ensures
        normal_actions(s).len() == s.len(),
        forall|i: int| 0 <= i < s.len() ==> normal_actions(s)[i] == normal_action(s[i]),
    decreases s,
{
    if s.len() > 0 {
        lemma_normal_actions_len(s.drop_last());
    }
}

// ---------------------------------------------------------------------------
// Action conversions.
// ---------------------------------------------------------------------------

fn intent_to_dto(i: &IntentSpec) -> (r: WebUiIntentDto)
    ensures
        webui_intent_model(r) == normal_intent(intent_model(*i)),
{
    WebUiIntentDto {
        action: i.action.clone(),
        package: i.package.clone(),
        class_name: i.class_name.clone(),
        data: i.data.clone(),
        category: clone_strings(&i.category),
        extras: match &i.extras {
            Some(es) => clone_string_pairs(es),
            None => Vec::new(),
        },
    }
}

fn dto_to_intent(d: WebUiIntentDto) -> (r: IntentSpec)
    ensures
        intent_model(r) == webui_intent_model(d),
{
    let extras = if d.extras.len() == 0 {
        None
    } else {
        Some(d.extras)
    };
    IntentSpec {
        action: d.action,
        package: d.package,
        class_name: d.class_name,
        data: d.data,
        category: d.category,
        extras,
    }
}

/// Turns an action into the editor's shape; an intent's absent extras
/// come out as an empty list.
pub fn action_to_webui_dto(action: &Action) -> (r: WebUiActionDto)
    ensures
        webui_action_model(r) == normal_action(action_model(*action)),
    decreases action,
{
    match action {
        Action::Shell { cmd } => WebUiActionDto::RunShell { command: cmd.clone() },
        Action::SendKey { key_code } => WebUiActionDto::SendKey { key_code: *key_code },
        Action::BuiltinCommand { command } => WebUiActionDto::BuiltinCommand {
            command: builtin_to_dto(*command),
        },
        Action::LaunchApp { package, activity } => WebUiActionDto::LaunchApp {
            package: package.clone(),
            activity: activity.clone(),
        },
        Action::LaunchIntent { intent } => WebUiActionDto::LaunchIntent {
            intent: intent_to_dto(intent),
        },
        Action::MultiTap { codes, interval_ms } => WebUiActionDto::MultiTap {
            codes: crate::config::clone_codes(codes),
            interval_ms: *interval_ms,
        },
        Action::ToggleScreen => WebUiActionDto::ToggleScreen,
        Action::ToggleRule { rule_id } => WebUiActionDto::ToggleRule { rule_id: rule_id.clone() },
        Action::VolumeControl { direction } => WebUiActionDto::VolumeControl {
            direction: match direction {
                VolumeDirection::Up => WebUiVolumeDirectionDto::Up,
                VolumeDirection::Down => WebUiVolumeDirectionDto::Down,
            },
        },
        Action::BrightnessControl { direction } => WebUiActionDto::BrightnessControl {
            direction: match direction {
                BrightnessDirection::Up => WebUiBrightnessDirectionDto::Up,
                BrightnessDirection::Down => WebUiBrightnessDirectionDto::Down,
            },
        },
        Action::Swipe { dx, dy, duration_ms } => WebUiActionDto::Swipe {
            dx: *dx,
            dy: *dy,
            duration_ms: *duration_ms,
        },
        Action::Intercept => WebUiActionDto::Intercept,
        Action::Macro { actions } => {
            let n = actions.len();
            let mut out: Vec<WebUiActionDto> = Vec::new();
            let mut i: usize = 0;
            while i < n
                invariant
                    0 <= i <= n,
                    n == actions@.len(),
                    out@.len() == i,
                    forall|k: int|
                        0 <= k < i ==> webui_action_model(#[trigger] out@[k]) == normal_action(
                            action_model(*actions@[k]),
                        ),
                decreases n - i,
            {
                let sub: &Action = &actions[i];
                out.push(action_to_webui_dto(sub));
                i = i + 1;
            }
            proof {
                lemma_webui_actions_model_len(out@);
                lemma_actions_model_len(actions@);
                lemma_normal_actions_len(actions_model(actions@));
                assert(webui_actions_model(out@) =~= normal_actions(actions_model(actions@)));
            }
            WebUiActionDto::Macro { actions: out }
        },
    }
}

/// Turns an editor-shaped action into an action.
pub fn dto_to_action(d: WebUiActionDto) -> (r: Action)
    ensures
        action_model(r) == webui_action_model(d),
    decreases d,
{
    match d {
        WebUiActionDto::RunShell { command } => Action::Shell { cmd: command },
        WebUiActionDto::SendKey { key_code } => Action::SendKey { key_code },
        WebUiActionDto::BuiltinCommand { command } => Action::BuiltinCommand {
            command: builtin_from_dto(command),
        },
        WebUiActionDto::LaunchApp { package, activity } => Action::LaunchApp { package, activity },
        WebUiActionDto::LaunchIntent { intent } => Action::LaunchIntent {
            intent: dto_to_intent(intent),
        },
        WebUiActionDto::MultiTap { codes, interval_ms } => Action::MultiTap { codes, interval_ms },
        WebUiActionDto::ToggleScreen => Action::ToggleScreen,
        WebUiActionDto::ToggleRule { rule_id } => Action::ToggleRule { rule_id },
        WebUiActionDto::VolumeControl { direction } => Action::VolumeControl {
            direction: match direction {
                WebUiVolumeDirectionDto::Up => VolumeDirection::Up,
                WebUiVolumeDirectionDto::Down => VolumeDirection::Down,
            },
        },
        WebUiActionDto::BrightnessControl { direction } => Action::BrightnessControl {
            direction: match direction {
                WebUiBrightnessDirectionDto::Up => BrightnessDirection::Up,
                WebUiBrightnessDirectionDto::Down => BrightnessDirection::Down,
            },
        },
        WebUiActionDto::Swipe { dx, dy, duration_ms } => Action::Swipe { dx, dy, duration_ms },
        WebUiActionDto::Intercept => Action::Intercept,
        WebUiActionDto::Macro { actions } => {
            let n = actions.len();
            let mut out: Vec<Box<Action>> = Vec::new();
            let mut i: usize = 0;
            // move the list out one element at a time
            let mut rest = actions;
            let ghost rest0 = rest@;
            while i < n
                invariant
                    0 <= i <= n,
                    rest@.len() == n - i,
                    forall|k: int| 0 <= k < n - i ==> rest@[k] == rest0[k + i],
                    out@.len() == i,
                    forall|k: int|
                        0 <= k < i ==> action_model(*(#[trigger] out@[k])) == webui_action_model(
                            rest0[k],
                        ),
                decreases n - i,
            {
                let sub = rest.remove(0);
                out.push(Box::new(dto_to_action(sub)));
                i = i + 1;
            }
            proof {
                lemma_actions_model_len(out@);
                lemma_webui_actions_model_len(rest0);
                assert(actions_model(out@) =~= webui_actions_model(rest0));
            }
            Action::Macro { actions: out }
        },
    }
}

/// The editor's flat list for an action: a compound action lists its
/// members, anything else is a one-element list.
pub open spec fn action_list_model(a: ActionModel) -> Seq<ActionModel> {
    match a {
        ActionModel::Macro { actions } => normal_actions(actions),
        _ => seq![normal_action(a)],
    }
}

/// Unwraps an action into the editor's flat action list.
pub fn action_to_dto_list(action: &Action) -> (r: Vec<WebUiActionDto>)
    ensures
        webui_actions_model(r@) == action_list_model(action_model(*action)),
{
    match action {
        Action::Macro { actions } => {
            let n = actions.len();
            let mut out: Vec<WebUiActionDto> = Vec::new();
            let mut i: usize = 0;
            while i < n
                invariant
                    0 <= i <= n,
                    n == actions@.len(),
                    out@.len() == i,
                    forall|k: int|
                        0 <= k < i ==> webui_action_model(#[trigger] out@[k]) == normal_action(
                            action_model(*actions@[k]),
                        ),
                decreases n - i,
            {
                let sub: &Action = &actions[i];
                out.push(action_to_webui_dto(sub));
                i = i + 1;
            }
            proof {
                lemma_webui_actions_model_len(out@);
                lemma_actions_model_len(actions@);
                lemma_normal_actions_len(actions_model(actions@));
                assert(webui_actions_model(out@) =~= normal_actions(actions_model(actions@)));
            }
            out
        },
        _ => {
            let mut out: Vec<WebUiActionDto> = Vec::new();
            out.push(action_to_webui_dto(action));
            proof {
                assert(out@.drop_last() =~= Seq::<WebUiActionDto>::empty());
                assert(webui_actions_model(out@.drop_last()) == Seq::<ActionModel>::empty());
                assert(webui_actions_model(out@) =~= seq![
                    normal_action(action_model(*action)),
                ]);
            }
            out
        },
    }
}

/// What a rule's action list means as one action: a single entry stands
/// alone, several become a compound action.
pub open spec fn list_action_model(s: Seq<WebUiActionDto>) -> ActionModel {
    if s.len() == 1 {
        webui_action_model(s[0])
    } else {
        ActionModel::Macro { actions: webui_actions_model(s) }
    }
}

/// Wraps the editor's action list back into one action; an empty list is
/// rejected, exactly one entry is unwrapped, more become a compound.
pub fn dto_list_to_action(actions: Vec<WebUiActionDto>) -> (r: Result<Action, ()>)
    ensures
        actions@.len() == 0 <==> r is Err,
        r matches Ok(a) ==> action_model(a) == list_action_model(actions@),
{
    if actions.len() == 0 {
        return Err(());
    }
    let mut actions = actions;
    if actions.len() == 1 {
        let only = actions.remove(0);
        let a = dto_to_action(only);
        Ok(a)
    } else {
        let n = actions.len();
        let ghost a0 = actions@;
        let mut out: Vec<Box<Action>> = Vec::new();
        let mut i: usize = 0;
        while i < n
            invariant
                0 <= i <= n,
                actions@.len() == n - i,
                forall|k: int| 0 <= k < n - i ==> actions@[k] == a0[k + i],
                out@.len() == i,
                forall|k: int|
                    0 <= k < i ==> action_model(*(#[trigger] out@[k])) == webui_action_model(
                        a0[k],
                    ),
            decreases n - i,
        {
            let sub = actions.remove(0);
            out.push(Box::new(dto_to_action(sub)));
            i = i + 1;
        }
        proof {
            lemma_actions_model_len(out@);
            lemma_webui_actions_model_len(a0);
            assert(actions_model(out@) =~= webui_actions_model(a0));
        }
        Ok(Action::Macro { actions: out })
    }
}

// ---------------------------------------------------------------------------
// Conditions.
// ---------------------------------------------------------------------------

/// A raw editor token resolves as a decimal code first, then as a
/// hardware-map name; unlike a trigger token it is not trimmed here.
pub open spec fn parse_token_spec(map: Seq<(u16, Seq<char>)>, tok: Seq<char>) -> Option<u16> {
    if parse_u16_seq(tok) is Some {
        parse_u16_seq(tok)
    } else {
        map_name_lookup(map, tok)
    }
}

/// Resolves one editor token to a key code.
pub fn parse_token_to_code(token: &str, map: &Vec<(u16, String)>) -> (r: Option<u16>)
    ensures
        r == parse_token_spec(map_view(map@), token@),
{
    match parse_u16(token) {
        Some(v) => Some(v),
        None => crate::trigger::map_lookup_by_name(map, token),
    }
}

/// The condition a rule's trigger and gesture kind present to the
/// editor: a combo trigger is split at its first `+` into the two keys.
pub open spec fn condition_from_rule_spec(
    trigger: Seq<char>,
    map: Seq<(u16, Seq<char>)>,
    rt: RuleType,
) -> WebUiConditionDto {
    let behavior = behavior_of_rule_type(rt);
    if spec_behavior_is_combo(behavior) && has_plus(trigger) {
        let i = first_plus(trigger);
        WebUiConditionDto::KeyEvent {
            key_code: parse_token_spec(map, trim_seq(trigger.subrange(0, i))),
            combo_key_code: parse_token_spec(
                map,
                trim_seq(trigger.subrange(i + 1, trigger.len() as int)),
            ),
            behavior,
        }
    } else {
        WebUiConditionDto::KeyEvent {
            key_code: parse_token_spec(map, trim_seq(trigger)),
            combo_key_code: None,
            behavior,
        }
    }
}

/// Builds the editor's condition from a rule's trigger and kind.
pub fn condition_from_rule(trigger: &str, rule_type: RuleType, map: &Vec<(u16, String)>) -> (r:
    WebUiConditionDto)
    ensures
        r == condition_from_rule_spec(trigger@, map_view(map@), rule_type),
{
    let behavior = WebUiBehaviorDto::from_rule_type(rule_type);
    if behavior.is_combo() {
        let n: usize = trigger.unicode_len();
        let mut i: usize = 0;
        while i < n && trigger.get_char(i) as u32 != 0x2B
            invariant
                0 <= i <= n,
                n == trigger@.len(),
                forall|k: int| 0 <= k < i ==> trigger@[k] != '+',
            decreases n - i,
        {
            i = i + 1;
        }
        proof {
            crate::strutil::lemma_first_plus_at_pub(trigger@, i as int);
        }
        if i < n {
            let left = trigger.substring_char(0, i);
            let right = trigger.substring_char(i + 1, n);
            let key_code = parse_token_to_code(trim_str(left), map);
            let combo_key_code = parse_token_to_code(trim_str(right), map);
            return WebUiConditionDto::KeyEvent { key_code, combo_key_code, behavior };
        }
    }
    let key_code = parse_token_to_code(trim_str(trigger), map);
    WebUiConditionDto::KeyEvent { key_code, combo_key_code: None, behavior }
}

/// Why a condition cannot be turned back into a trigger.
#[derive(Debug, Clone, Copy, PartialEq, Eq, Structural)]
pub enum ConditionError {
    MissingKeyCode,
    MissingComboKeyCode,
    IdenticalComboKeys,
    UnexpectedComboKeyCode,
}

/// The trigger text and gesture kind a condition stands for, or why it
/// cannot: a combo needs two distinct codes, a single key exactly one.
pub open spec fn condition_to_trigger_spec(c: WebUiConditionDto) -> Result<
    (Seq<char>, RuleType),
    ConditionError,
> {
    match c {
        WebUiConditionDto::KeyEvent { key_code, combo_key_code, behavior } => {
            let rt = rule_type_of_behavior(behavior);
            if spec_behavior_is_combo(behavior) {
                if key_code is None {
                    Err(ConditionError::MissingKeyCode)
                } else if combo_key_code is None {
                    Err(ConditionError::MissingComboKeyCode)
                } else if key_code == combo_key_code {
                    Err(ConditionError::IdenticalComboKeys)
                } else {
                    Ok(
                        (
                            dec_str(key_code.unwrap() as int) + seq!['+'] + dec_str(
                                combo_key_code.unwrap() as int,
                            ),
                            rt,
                        ),
                    )
                }
            } else {
                if combo_key_code is Some {
                    Err(ConditionError::UnexpectedComboKeyCode)
                } else if key_code is None {
                    Err(ConditionError::MissingKeyCode)
                } else {
                    Ok((dec_str(key_code.unwrap() as int), rt))
                }
            }
        },
    }
}

/// Turns a condition back into a trigger string and gesture kind.
pub fn condition_to_trigger(cond: &WebUiConditionDto) -> (r: Result<
    (String, RuleType),
    ConditionError,
>)
    ensures
        match r {
            Ok(p) => condition_to_trigger_spec(*cond) matches Ok(q) && q.0 == p.0@ && q.1 == p.1,
            Err(e) => condition_to_trigger_spec(*cond) == Err::<(Seq<char>, RuleType),
                ConditionError,
            >(e),
        },
{
    match cond {
        WebUiConditionDto::KeyEvent { key_code, combo_key_code, behavior } => {
            let rt = behavior.into_rule_type();
            if behavior.is_combo() {
                match (key_code, combo_key_code) {
                    (None, _) => Err(ConditionError::MissingKeyCode),
                    (Some(_), None) => Err(ConditionError::MissingComboKeyCode),
                    (Some(k1), Some(k2)) => {
                        if *k1 == *k2 {
                            Err(ConditionError::IdenticalComboKeys)
                        } else {
                            let s = u16_to_dec_string(*k1).concat("+").concat(
                                u16_to_dec_string(*k2).as_str(),
                            );
                            proof {
                                reveal_strlit("+");
                                assert(s@ =~= dec_str(*k1 as int) + seq!['+'] + dec_str(
                                    *k2 as int,
                                ));
                            }
                            Ok((s, rt))
                        }
                    },
                }
            } else {
                if combo_key_code.is_some() {
                    Err(ConditionError::UnexpectedComboKeyCode)
                } else {
                    match key_code {
                        Some(k) => Ok((u16_to_dec_string(*k), rt)),
                        None => Err(ConditionError::MissingKeyCode),
                    }
                }
            }
        },
    }
}

// ---------------------------------------------------------------------------
// Whole-document conversions.
// ---------------------------------------------------------------------------

/// How one rule appears in the editor's document.
pub open spec fn rule_dto_ok(d: WebUiRuleDto, r: Rule, map: Seq<(u16, Seq<char>)>) -> bool {
    &&& opt_str_view(d.id) == Some(r.id@)
    &&& d.enabled == r.enabled
    &&& d.description@ == r.description@
    &&& d.condition_logic@ == "and"@
    &&& d.conditions@.len() == 1
    &&& d.conditions@[0] == condition_from_rule_spec(r.trigger@, map, r.rule_type)
    &&& webui_actions_model(d.actions@) == action_list_model(action_model(r.action))
}

/// Shapes the configuration into the editor's document.
pub fn config_to_webui_dto(cfg: &Config) -> (r: WebUiConfigDto)
    ensures
        r.version == 1,
        r.device_name@ == cfg.device_name@,
        r.hardware_map@ == cfg.hardware_map@,
        r.double_press_interval_ms == cfg.settings.double_tap_interval_ms,
        r.long_press_min_ms == cfg.settings.long_press_threshold_ms,
        r.short_press_min_ms == cfg.settings.short_press_threshold_ms,
        r.combination_timeout_ms == cfg.settings.combination_timeout_ms,
        r.rule_timeout_ms == cfg.settings.rule_timeout_ms,
        r.rules@.len() == cfg.rules@.len(),
        forall|i: int|
            0 <= i < cfg.rules@.len() ==> rule_dto_ok(
                #[trigger] r.rules@[i],
                cfg.rules@[i],
                map_view(cfg.hardware_map@),
            ),
{
    let n = cfg.rules.len();
    let mut rules: Vec<WebUiRuleDto> = Vec::new();
    let mut i: usize = 0;
    while i < n
        invariant
            0 <= i <= n,
            n == cfg.rules@.len(),
            rules@.len() == i,
            forall|k: int|
                0 <= k < i ==> rule_dto_ok(
                    #[trigger] rules@[k],
                    cfg.rules@[k],
                    map_view(cfg.hardware_map@),
                ),
        decreases n - i,
    {
        let rl = &cfg.rules[i];
        let condition = condition_from_rule(rl.trigger.as_str(), rl.rule_type, &cfg.hardware_map);
        let actions = action_to_dto_list(&rl.action);
        let mut conditions: Vec<WebUiConditionDto> = Vec::new();
        conditions.push(condition);
        rules.push(
            WebUiRuleDto {
                id: Some(rl.id.clone()),
                enabled: rl.enabled,
                description: rl.description.clone(),
                condition_logic: "and".to_owned(),
                conditions,
                actions,
            },
        );
        i = i + 1;
    }
    WebUiConfigDto {
        version: 1,
        device_name: cfg.device_name.clone(),
        hardware_map: clone_hardware_map(&cfg.hardware_map),
        double_press_interval_ms: cfg.settings.double_tap_interval_ms,
        long_press_min_ms: cfg.settings.long_press_threshold_ms,
        short_press_min_ms: cfg.settings.short_press_threshold_ms,
        combination_timeout_ms: cfg.settings.combination_timeout_ms,
        rule_timeout_ms: cfg.settings.rule_timeout_ms,
        rules,
    }
}

/// Why an edited document was rejected before validation, or by it.
#[derive(Debug)]
pub enum SaveError {
    UnsupportedVersion { version: u32 },
    WrongConditionCount { rule: usize },
    BadCondition { rule: usize, error: ConditionError },
    NoActions { rule: usize },
    Invalid { error: ConfigError },
}

/// The first complaint about the document's rules from index `i` on,
/// before any configuration-level validation.
pub open spec fn rules_pre_error(rules: Seq<WebUiRuleDto>, i: int) -> Option<SaveError>
    decreases rules.len() - i,
{
    if i < 0 || i >= rules.len() {
        None
    } else {
        let r = rules[i];
        if r.conditions@.len() != 1 {
            Some(SaveError::WrongConditionCount { rule: i as usize })
        } else {
            match condition_to_trigger_spec(r.conditions@[0]) {
                Err(e) => Some(SaveError::BadCondition { rule: i as usize, error: e }),
                Ok(_) => if r.actions@.len() == 0 {
                    Some(SaveError::NoActions { rule: i as usize })
                } else {
                    rules_pre_error(rules, i + 1)
                },
            }
        }
    }
}

/// The first complaint about the document before validation.
pub open spec fn pre_error(dto: WebUiConfigDto) -> Option<SaveError> {
    if dto.version != 1 {
        Some(SaveError::UnsupportedVersion { version: dto.version })
    } else {
        rules_pre_error(dto.rules@, 0)
    }
}

/// How one accepted rule is built from the document: trigger and kind
/// from the condition, the action from the list, the id kept when given
/// and otherwise drawn fresh and suffixed with the trigger.
pub open spec fn built_rule_ok(r: Rule, d: WebUiRuleDto, uuid: Seq<char>) -> bool {
    &&& d.conditions@.len() == 1
    &&& condition_to_trigger_spec(d.conditions@[0]) matches Ok(tr) && {
        &&& r.trigger@ == tr.0
        &&& r.rule_type == tr.1
        &&& r.enabled == d.enabled
        &&& r.description@ == d.description@
        &&& action_model(r.action) == list_action_model(d.actions@)
        &&& r.id@ == (match d.id {
            Some(s) => if trim_seq(s@).len() > 0 {
                s@
            } else {
                uuid + seq!['_'] + tr.0
            },
            None => uuid + seq!['_'] + tr.0,
        })
    }
}

/// How the accepted document rebuilds the configuration over the
/// existing one.
pub open spec fn built_config_ok(
    base: Config,
    dto: WebUiConfigDto,
    c: Config,
    uuids: Seq<Seq<char>>,
) -> bool {
    &&& c.device_name@ == if trim_seq(dto.device_name@).len() > 0 {
        trim_seq(dto.device_name@)
    } else {
        base.device_name@
    }
    &&& c.hardware_map@ == if dto.hardware_map@.len() > 0 {
        dto.hardware_map@
    } else {
        base.hardware_map@
    }
    &&& c.settings.double_tap_interval_ms == dto.double_press_interval_ms
    &&& c.settings.long_press_threshold_ms == dto.long_press_min_ms
    &&& c.settings.short_press_threshold_ms == dto.short_press_min_ms
    &&& c.settings.combination_timeout_ms == dto.combination_timeout_ms
    &&& c.settings.rule_timeout_ms == dto.rule_timeout_ms
    &&& c.settings.enable_haptic == base.settings.enable_haptic
    &&& c.settings.enable_wakelock == base.settings.enable_wakelock
    &&& c.settings.log_level@ == base.settings.log_level@
    &&& uuids.len() == dto.rules@.len()
    &&& c.rules@.len() == dto.rules@.len()
    &&& forall|i: int|
        0 <= i < dto.rules@.len() ==> built_rule_ok(#[trigger] c.rules@[i], dto.rules@[i], uuids[i])
}

/// Applies an edited document to the configuration: rebuilds the rules
/// from conditions and action lists, keeps or draws ids, replaces the
/// thresholds, and accepts the result only when it validates.
pub fn apply_webui_dto(base: &Config, dto: WebUiConfigDto) -> (r: Result<Config, SaveError>)
    ensures
        match r {
            Ok(c) => pre_error(dto) is None && validate_spec(c) is None && exists|
                uuids: Seq<Seq<char>>,
            | #[trigger] built_config_ok(*base, dto, c, uuids),
            Err(e) => if pre_error(dto) is Some {
                Some(e) == pre_error(dto)
            } else {
                e matches SaveError::Invalid { error } && exists|
                    uuids: Seq<Seq<char>>,
                    c: Config,
                |
                    #[trigger] built_config_ok(*base, dto, c, uuids) && validate_spec(c) == Some(
                        config_error_model(error),
                    )
            },
        },
{
    if dto.version != 1 {
        return Err(SaveError::UnsupportedVersion { version: dto.version });
    }
    let mut c = base.clone();
    let trimmed_name = trim_str(dto.device_name.as_str());
    if trimmed_name.unicode_len() > 0 {
        c.device_name = trimmed_name.to_owned();
    }
    if dto.hardware_map.len() > 0 {
        c.hardware_map = clone_hardware_map(&dto.hardware_map);
    }
    c.settings.double_tap_interval_ms = dto.double_press_interval_ms;
    c.settings.long_press_threshold_ms = dto.long_press_min_ms;
    c.settings.short_press_threshold_ms = dto.short_press_min_ms;
    c.settings.combination_timeout_ms = dto.combination_timeout_ms;
    c.settings.rule_timeout_ms = dto.rule_timeout_ms;
    c.rules = Vec::new();
    let ghost drules = dto.rules@;
    let n = dto.rules.len();
    let mut rest = dto.rules;
    let mut i: usize = 0;
    let ghost mut uuids: Seq<Seq<char>> = Seq::empty();
    while i < n
        invariant
            0 <= i <= n,
            rest@.len() == n - i,
            n == drules.len(),
            forall|k: int| 0 <= k < n - i ==> rest@[k] == drules[k + i],
            rules_pre_error(drules, 0) == rules_pre_error(drules, i as int),
            uuids.len() == i,
            c.rules@.len() == i,
            forall|k: int|
                0 <= k < i ==> built_rule_ok(#[trigger] c.rules@[k], drules[k], uuids[k]),
            c.device_name@ == if trim_seq(dto.device_name@).len() > 0 {
                trim_seq(dto.device_name@)
            } else {
                base.device_name@
            },
            c.hardware_map@ == if dto.hardware_map@.len() > 0 {
                dto.hardware_map@
            } else {
                base.hardware_map@
            },
            c.settings.double_tap_interval_ms == dto.double_press_interval_ms,
            c.settings.long_press_threshold_ms == dto.long_press_min_ms,
            c.settings.short_press_threshold_ms == dto.short_press_min_ms,
            c.settings.combination_timeout_ms == dto.combination_timeout_ms,
            c.settings.rule_timeout_ms == dto.rule_timeout_ms,
            c.settings.enable_haptic == base.settings.enable_haptic,
            c.settings.enable_wakelock == base.settings.enable_wakelock,
            c.settings.log_level@ == base.settings.log_level@,
        decreases n - i,
    {
        let rd = rest.remove(0);
        if rd.conditions.len() != 1 {
            return Err(SaveError::WrongConditionCount { rule: i });
        }
        let cond = rd.conditions[0];
        let (trigger, rule_type) = match condition_to_trigger(&cond) {
            Ok(p) => p,
            Err(e) => {
                return Err(SaveError::BadCondition { rule: i, error: e });
            },
        };
        let ghost trig_view = trigger@;
        let action = match dto_list_to_action(rd.actions) {
            Ok(a) => a,
            Err(()) => {
                return Err(SaveError::NoActions { rule: i });
            },
        };
        let id: String = match rd.id {
            Some(s) => {
                let t = trim_str(s.as_str());
                if t.unicode_len() > 0 {
                    proof {
                        uuids = uuids.push(Seq::<char>::empty());
                    }
                    s
                } else {
                    let u = random_uuid_string();
                    proof {
                        uuids = uuids.push(u@);
                    }
                    u.concat("_").concat(trigger.as_str())
                }
            },
            None => {
                let u = random_uuid_string();
                proof {
                    uuids = uuids.push(u@);
                }
                u.concat("_").concat(trigger.as_str())
            },
        };
        proof {
            reveal_strlit("_");
            assert("_"@ =~= seq!['_']);
            assert(rd == drules[i as int]);
        }
        c.rules.push(
            Rule {
                id,
                trigger,
                rule_type,
                action,
                enabled: rd.enabled,
                description: rd.description,
            },
        );
        proof {
            let newr = c.rules@[i as int];
            assert(newr == c.rules@.last());
            assert(newr.trigger@ == trig_view);
            assert(condition_to_trigger_spec(drules[i as int].conditions@[0]) matches Ok(tr)
                && tr.0 == trig_view && tr.1 == newr.rule_type);
            assert(action_model(newr.action) == list_action_model(drules[i as int].actions@));
            assert(built_rule_ok(c.rules@[i as int], drules[i as int], uuids[i as int]));
        }
        i = i + 1;
    }
    proof {
        assert(rules_pre_error(drules, n as int) is None);
        assert(built_config_ok(*base, dto, c, uuids));
    }
    match c.validate() {
        Ok(()) => Ok(c),
        Err(e) => Err(SaveError::Invalid { error: e }),
    }
}

// ---------------------------------------------------------------------------
// Round-trip laws.
// ---------------------------------------------------------------------------

/// What a flat action list stands for once rebuilt: one entry stands
/// alone, any other length becomes a compound.
pub open spec fn relist(s: Seq<ActionModel>) -> ActionModel {
    if s.len() == 1 {
        s[0]
    } else {
        ActionModel::Macro { actions: s }
    }
}

/// Law: unwrapping an action into the editor's flat list and wrapping it
/// back yields the normalized action (an intent's empty extras collapse
/// to none).  The one exception is a compound of exactly one member,
/// which collapses to that member.
pub proof fn lemma_action_list_round_trip(a: ActionModel)
    ensures
        !(a is Macro) ==> relist(action_list_model(a)) == normal_action(a),
        (a matches ActionModel::Macro { actions } && actions.len() != 1) ==> relist(
            action_list_model(a),
        ) == normal_action(a),
{
    match a {
        ActionModel::Macro { actions } => {
            lemma_normal_actions_len(actions);
        },
        _ => {
            assert(action_list_model(a) =~= seq![normal_action(a)]);
        },
    }
}

/// Law: a numeric trigger written by the editor resolves back to the
/// same key code, whatever the hardware map holds.
pub proof fn lemma_numeric_trigger_resolves(map: Seq<(u16, Seq<char>)>, k: u16)
    ensures
        crate::trigger::resolve_token_spec(map, dec_str(k as int)) == Some(k),
{
    crate::strutil::lemma_dec_str_parses_back(k);
}

/// Law: converting a rule's trigger to the editor's condition and back
/// yields a trigger with the same parsed key codes, for a single-key
/// rule whose trigger resolves.  The text may change (a symbolic name
/// becomes its decimal code); what the engine parses from it does not.
pub proof fn lemma_single_condition_round_trip(
    trigger: Seq<char>,
    map: Seq<(u16, Seq<char>)>,
    rt: RuleType,
)
    requires
        !crate::trigger::spec_is_combo_type(rt),
        crate::trigger::resolve_token_spec(map, trigger) is Some,
    ensures
        ({
            let cond = condition_from_rule_spec(trigger, map, rt);
            let back = condition_to_trigger_spec(cond);
            &&& back is Ok
            &&& crate::trigger::parse_trigger_spec(back.unwrap().0, map, back.unwrap().1)
                == crate::trigger::parse_trigger_spec(trigger, map, rt)
            &&& back.unwrap().1 == rt
        }),
{
    let k = crate::trigger::resolve_token_spec(map, trigger).unwrap();
    let cond = condition_from_rule_spec(trigger, map, rt);
    assert(!spec_behavior_is_combo(behavior_of_rule_type(rt)));
    assert(rule_type_of_behavior(behavior_of_rule_type(rt)) == rt);
    // the condition's key code is the trigger's resolved code: resolving
    // an already trimmed token trims nothing further
    crate::strutil::lemma_trim_trim(trigger);
    assert(parse_token_spec(map, trim_seq(trigger)) == crate::trigger::resolve_token_spec(
        map,
        trigger,
    ));
    let back = condition_to_trigger_spec(cond);
    assert(back is Ok && back.unwrap().0 == dec_str(k as int) && back.unwrap().1 == rt);
    lemma_numeric_trigger_resolves(map, k);
    assert(crate::trigger::parse_trigger_spec(back.unwrap().0, map, rt) =~= seq![k]);
    assert(crate::trigger::parse_trigger_spec(trigger, map, rt) =~= seq![k]);
}

/// Law: converting a two-key rule's trigger to the editor's condition
/// and back yields a trigger with the same parsed key codes, for a
/// combo trigger of the plain shape: one `+`, both sides resolving to
/// distinct codes.  The text is rewritten to the decimal codes; what the
/// engine parses from it does not change.
pub proof fn lemma_combo_condition_round_trip(
    trigger: Seq<char>,
    map: Seq<(u16, Seq<char>)>,
    rt: RuleType,
)
    requires
        crate::trigger::spec_is_combo_type(rt),
        first_plus(trigger) >= 0,
        !crate::strutil::has_plus(
            trigger.subrange(first_plus(trigger) + 1, trigger.len() as int),
        ),
        trim_seq(trigger.subrange(0, first_plus(trigger))).len() > 0,
        trim_seq(trigger.subrange(first_plus(trigger) + 1, trigger.len() as int)).len() > 0,
        parse_token_spec(map, trim_seq(trigger.subrange(0, first_plus(trigger)))) is Some,
        parse_token_spec(
            map,
            trim_seq(trigger.subrange(first_plus(trigger) + 1, trigger.len() as int)),
        ) is Some,
        parse_token_spec(map, trim_seq(trigger.subrange(0, first_plus(trigger))))
            != parse_token_spec(
            map,
            trim_seq(trigger.subrange(first_plus(trigger) + 1, trigger.len() as int)),
        ),
    ensures
        ({
            let cond = condition_from_rule_spec(trigger, map, rt);
            let back = condition_to_trigger_spec(cond);
            &&& back is Ok
            &&& back.unwrap().1 == rt
            &&& crate::trigger::parse_trigger_spec(back.unwrap().0, map, rt)
                == crate::trigger::parse_trigger_spec(trigger, map, rt)
            &&& crate::trigger::parse_trigger_spec(trigger, map, rt).len() == 2
        }),
{
    let i = first_plus(trigger);
    let left = trigger.subrange(0, i);
    let right = trigger.subrange(i + 1, trigger.len() as int);
    let tl = trim_seq(left);
    let tr = trim_seq(right);
    let k1 = parse_token_spec(map, tl).unwrap();
    let k2 = parse_token_spec(map, tr).unwrap();
    crate::strutil::lemma_first_plus_props(trigger);
    assert(crate::strutil::has_plus(trigger));
    let cond = condition_from_rule_spec(trigger, map, rt);
    assert(cond == WebUiConditionDto::KeyEvent {
        key_code: Some(k1),
        combo_key_code: Some(k2),
        behavior: behavior_of_rule_type(rt),
    });
    assert(spec_behavior_is_combo(behavior_of_rule_type(rt)));
    assert(rule_type_of_behavior(behavior_of_rule_type(rt)) == rt);
    let back = condition_to_trigger_spec(cond);
    let d1 = dec_str(k1 as int);
    let d2 = dec_str(k2 as int);
    let bt = d1 + seq!['+'] + d2;
    assert(back is Ok && back.unwrap().0 == bt && back.unwrap().1 == rt);
    // the original trigger parses to [k1, k2]
    lemma_split_one_plus(trigger, i);
    assert(crate::strutil::split_plus_seq(trigger) == seq![left, right]);
    lemma_two_parts(left, right, tl, tr);
    assert(crate::trigger::trigger_parts_spec(trigger) == seq![tl, tr]);
    crate::strutil::lemma_trim_trim(left);
    crate::strutil::lemma_trim_trim(right);
    assert(crate::trigger::resolve_token_spec(map, tl) == Some(k1));
    assert(crate::trigger::resolve_token_spec(map, tr) == Some(k2));
    assert(crate::trigger::parse_trigger_spec(trigger, map, rt) == seq![k1, k2]);
    // the rebuilt trigger parses to the same codes
    crate::strutil::lemma_dec_str_digits(k1 as int);
    crate::strutil::lemma_dec_str_digits(k2 as int);
    assert(forall|k: int| 0 <= k < bt.len() && k < d1.len() ==> bt[k] == d1[k]);
    assert(bt[d1.len() as int] == '+');
    assert(forall|k: int| 0 <= k < d1.len() ==> bt[k] != '+');
    crate::strutil::lemma_first_plus_at_pub(bt, d1.len() as int);
    lemma_split_one_plus(bt, d1.len() as int);
    assert(bt.subrange(0, d1.len() as int) =~= d1);
    assert(bt.subrange(d1.len() as int + 1, bt.len() as int) =~= d2);
    assert(crate::strutil::split_plus_seq(bt) == seq![d1, d2]);
    crate::strutil::lemma_dec_str_parses_back(k1);
    crate::strutil::lemma_dec_str_parses_back(k2);
    lemma_two_parts(d1, d2, d1, d2);
    assert(crate::trigger::trigger_parts_spec(bt) == seq![d1, d2]);
    assert(crate::trigger::resolve_token_spec(map, d1) == Some(k1));
    assert(crate::trigger::resolve_token_spec(map, d2) == Some(k2));
    assert(crate::trigger::parse_trigger_spec(bt, map, rt) == seq![k1, k2]);
}

/// A text whose only `+` stands at the given index splits into the two
/// surrounding pieces.
proof fn lemma_split_one_plus(s: Seq<char>, i: int)
    requires
        0 <= i < s.len(),
        s[i] == '+',
        forall|k: int| 0 <= k < i ==> s[k] != '+',
        !crate::strutil::has_plus(s.subrange(i + 1, s.len() as int)),
    ensures
        crate::strutil::split_plus_seq(s) == seq![s.subrange(0, i), s.subrange(i + 1, s.len() as int)],
{
    crate::strutil::lemma_first_plus_at_pub(s, i);
    let tail = s.subrange(i + 1, s.len() as int);
    crate::strutil::lemma_first_plus_props(tail);
    if first_plus(tail) != -1 {
        assert(crate::strutil::has_plus(tail));
    }
    if tail.len() == 0 {
        assert(crate::strutil::split_plus_seq(tail) =~= seq![tail]);
        assert(crate::strutil::split_plus_seq(s) =~= seq![s.subrange(0, i), tail]);
    } else {
        assert(crate::strutil::split_plus_seq(tail) == seq![tail]);
        assert(crate::strutil::split_plus_seq(s) =~= seq![s.subrange(0, i), tail]);
    }
}

/// Two raw pieces whose trimmed forms are non-empty make exactly those
/// two trigger parts.
proof fn lemma_two_parts(a: Seq<char>, b: Seq<char>, ta: Seq<char>, tb: Seq<char>)
    requires
        ta == trim_seq(a),
        tb == trim_seq(b),
        ta.len() > 0,
        tb.len() > 0,
    ensures
        seq![a, b].map_values(|t: Seq<char>| trim_seq(t)).filter(|t: Seq<char>| t.len() > 0)
            == seq![ta, tb],
{
    let mapped = seq![a, b].map_values(|t: Seq<char>| trim_seq(t));
    assert(mapped =~= seq![ta, tb]);
    let pred = |t: Seq<char>| t.len() > 0;
    let one = seq![ta];
    assert(one.push(tb) =~= seq![ta, tb]);
    one.lemma_filter_push(tb, pred);
    let zero = Seq::<Seq<char>>::empty();
    assert(zero.push(ta) =~= one);
    zero.lemma_filter_push(ta, pred);
    assert(zero.filter(pred) == Seq::<Seq<char>>::empty());
    assert(one.filter(pred) =~= seq![ta]);
    assert(seq![ta, tb].filter(pred) =~= seq![ta, tb]);
}

} // verus!
