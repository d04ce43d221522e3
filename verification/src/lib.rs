//! A verified gesture engine for a key remapping daemon: it grabs a
//! hardware keyboard's events, classifies clicks, double clicks, short
//! and long holds and two-key combinations against a rule set, and says
//! which actions to run; around it sit the configuration model with its
//! validator, the rule editor's document conversions, and the plans the
//! dispatcher follows at the virtual keyboard sink.
#![verifier::loop_isolation(false)]

mod app_cache;
mod assoc;
mod config;
mod dispatch;
mod learn;
mod logfmt;
mod sys;
mod pmparse;
mod process;
mod state_machine;
mod strutil;
mod trigger;
mod webui;

pub use app_cache::AppCache;
pub use config::Action;
pub use config::ActionModel;
pub use config::BrightnessDirection;
pub use config::BuiltinCommand;
pub use config::Config;
pub use config::ConfigError;
pub use config::ConfigErrorModel;
pub use config::GlobalSettings;
pub use config::IntentModel;
pub use config::IntentSpec;
pub use config::Rule;
pub use config::RuleModel;
pub use config::RuleType;
pub use config::VolumeDirection;
pub use config::default_true;
pub use config::default_long_press_threshold;
pub use config::default_short_press_threshold;
pub use config::default_double_tap_interval;
pub use config::default_combination_timeout;
pub use config::default_tap_interval;
pub use config::default_log_level;
pub use config::default_rule_timeout;
pub use dispatch::build_intent_args;
pub use dispatch::click_emissions;
pub use dispatch::emit_key_code;
pub use dispatch::lemma_emissions_balanced;
pub use dispatch::lemma_toggle_rule_twice;
pub use dispatch::toggle_rule_in_config;
pub use learn::LEARN_TIMEOUT_MS;
pub use logfmt::format_timestamp;
pub use pmparse::parse_app_label;
pub use pmparse::parse_package_list;
pub use pmparse::split_lines;
pub use pmparse::str_has_prefix;
pub use learn::LearnResultSnapshot;
pub use learn::LearnState;
pub use learn::LearnStatus;
pub use sys::now_millis;
pub use sys::random_uuid_string;
pub use process::KeyEventDecision;
pub use process::lemma_bad_combo_rule_inert;
pub use process::lemma_combo_rule_fires;
pub use process::lemma_hold_rule_fires;
pub use process::lemma_release_classification;
pub use process::lemma_unmapped_key_forwarded;
pub use process::process_key_event;
pub use process::process_tick;
pub use state_machine::KeyState;
pub use state_machine::MachineModel;
pub use state_machine::ParsedRuleModel;
pub use state_machine::PendingModel;
pub use state_machine::StateMachine;
pub use state_machine::TapEntry;
pub use trigger::is_combo_type;
pub use webui::AppItemDto;
pub use webui::AppListDto;
pub use webui::WebUiActionDto;
pub use webui::WebUiBehaviorDto;
pub use webui::WebUiBrightnessDirectionDto;
pub use webui::WebUiVolumeDirectionDto;
pub use webui::WebUiBuiltinCommandDto;
pub use webui::WebUiConditionDto;
pub use webui::WebUiConfigDto;
pub use webui::WebUiIntentDto;
pub use webui::WebUiRuleDto;
pub use webui::action_to_dto_list;
pub use webui::action_to_webui_dto;
pub use webui::default_condition_logic;
pub use webui::default_combination_timeout_ms;
pub use webui::default_multitap_interval_ms;
pub use webui::default_rule_timeout_ms;
pub use webui::default_true_bool;
pub use webui::dto_list_to_action;
pub use webui::dto_to_action;
pub use webui::app_list_dto;
pub use webui::apply_webui_dto;
pub use webui::lemma_action_list_round_trip;
pub use webui::lemma_numeric_trigger_resolves;
pub use webui::lemma_combo_condition_round_trip;
pub use webui::lemma_single_condition_round_trip;
pub use webui::condition_from_rule;
pub use webui::condition_to_trigger;
pub use webui::config_to_webui_dto;
pub use webui::parse_token_to_code;
pub use webui::ConditionError;
pub use webui::SaveError;
pub use config::clone_rules;
pub use config::clone_hardware_map;
pub use config::rule_eq;
pub use config::action_eq;
pub use trigger::parse_trigger;
pub use trigger::resolve_token;
pub use trigger::trigger_parts;

pub use config::action_model;
pub use config::intent_model;
pub use config::rule_model;
pub use config::rules_model;
pub use config::validate_spec;
pub use dispatch::count_emits;
pub use dispatch::emissions_spec;
pub use dispatch::emit_code_spec;
pub use dispatch::find_rule_by_id;
pub use dispatch::intent_args_spec;
pub use dispatch::toggle_rule_spec;
pub use sys::elapsed_ms;
pub use sys::sat_add_u64;
pub use learn::learn_consume_spec;
pub use learn::learn_refreshed;
pub use learn::learn_snapshot_spec;
pub use state_machine::fired_actions;
pub use state_machine::m_handle_key;
pub use state_machine::m_is_mapped;
pub use state_machine::m_press;
pub use state_machine::m_release;
pub use state_machine::m_tap;
pub use state_machine::m_tick;
pub use state_machine::m_update_rules;
pub use state_machine::m_update_settings;
pub use state_machine::m_wf;
pub use state_machine::parse_rules_spec;
pub use strutil::dec_str;
pub use strutil::parse_u16_seq;
pub use strutil::trim_seq;
pub use trigger::map_view;
pub use trigger::parse_trigger_spec;
pub use trigger::resolve_token_spec;
pub use webui::built_config_ok;
pub use webui::pre_error;
pub use webui::condition_from_rule_spec;
pub use webui::condition_to_trigger_spec;
pub use webui::webui_action_model;
pub use strutil::char_is_ws;
pub use strutil::chars_to_string;
pub use strutil::contains_arrow;
pub use strutil::contains_plus;
pub use strutil::is_bool_literal;
pub use strutil::is_i32_literal;
pub use strutil::is_yaml_extension;
pub use strutil::parse_u16;
pub use strutil::split_plus;
pub use strutil::str_eq_str;
pub use strutil::str_le;
pub use strutil::trim_str;
pub use strutil::u16_to_dec_string;
pub use strutil::u64_to_dec2_string;
pub use strutil::u64_to_dec_string;
