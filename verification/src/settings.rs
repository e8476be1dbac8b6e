use vstd::prelude::*;
use crate::text::{owned, str_eq};

verus! {

/// The user's preferences, stored in `settings.json`.
pub struct Settings {
    pub launch_at_login: bool,
    pub show_draky_on_launch: bool,
    pub run_minimized: bool,
    pub theme: String,
    pub accent_color: String,
    pub reduce_motion: bool,
    pub language: String,
    pub date_format: String,
    pub inbox_location: String,
    pub conflict_resolution: String,
    pub delete_source_after_ingest: bool,
    pub date_subfolders: bool,
    pub inbox_size_limit_gb: u32,
    pub auto_archive_days: u32,
    pub undo_history_depth: u32,
    pub match_policy: String,
    pub concurrency: u32,
    pub undo_window_seconds: u32,
    pub unmatched_files_policy: String,
    pub node_failure_policy: String,
    pub auto_retry: bool,
    pub keep_partial_artifacts: bool,
    pub toast_on_success: bool,
    pub toast_on_failure: bool,
    pub notification_sound: String,
    pub draky_size: String,
    pub draky_personality: String,
    pub draky_always_on_top: bool,
    pub draky_overlay_visible: bool,
    pub draky_snap_to_corner: bool,
    pub draky_burp_on_success: bool,
    pub draky_idle_behaviors: bool,
    pub draky_file_type_munch: bool,
    pub openclaw_paired: bool,
    pub openclaw_device_id: String,
    pub pairing_code: String,
    pub api_bind_address: String,
    pub openclaw_auto_suggest_rules: bool,
    pub openclaw_send_file_metadata: bool,
    pub allowed_path_scopes: Vec<String>,
    pub dangerous_nodes_enabled: bool,
    pub allowed_dangerous_nodes: Vec<String>,
    pub require_confirmation_for: Vec<String>,
    pub db_path: String,
    pub rules_path: String,
    pub workflows_path: String,
    pub log_level: String,
    pub log_retention_days: u32,
    pub api_port: u16,
    pub max_file_size_mb: u64,
}

/// The general section (theme, language, ...) holds its default values.
pub open spec fn general_is_default(s: Settings) -> bool {
    &&& !s.launch_at_login
    &&& s.show_draky_on_launch
    &&& !s.run_minimized
    &&& s.theme@ == "dark"@
    &&& s.accent_color@ == "#2dd4bf"@
    &&& !s.reduce_motion
    &&& s.language@ == "en"@
    &&& s.date_format@ == "YYYY-MM-DD"@
}

/// The inbox section holds its default values.
pub open spec fn inbox_is_default(s: Settings) -> bool {
    &&& s.inbox_location@ == "~/Draction/Inbox"@
    &&& s.conflict_resolution@ == "append_timestamp"@
    &&& !s.delete_source_after_ingest
    &&& s.date_subfolders
    &&& s.inbox_size_limit_gb == 10
    &&& s.auto_archive_days == 30
    &&& s.undo_window_seconds == 10
    &&& s.undo_history_depth == 5
}

/// The Draky section holds its default values.
pub open spec fn draky_is_default(s: Settings) -> bool {
    &&& s.draky_size@ == "medium"@
    &&& s.draky_personality@ == "friendly"@
    &&& s.draky_always_on_top
    &&& s.draky_overlay_visible
    &&& s.draky_snap_to_corner
    &&& s.draky_burp_on_success
    &&& s.draky_idle_behaviors
    &&& s.draky_file_type_munch
}

/// Every setting outside those three sections holds its default value.
pub open spec fn others_are_default(s: Settings) -> bool {
    &&& s.match_policy@ == "first_match"@
    &&& s.concurrency == 1
    &&& s.unmatched_files_policy@ == "keep_inbox"@
    &&& s.node_failure_policy@ == "fail_fast"@
    &&& !s.auto_retry
    &&& s.keep_partial_artifacts
    &&& s.toast_on_success
    &&& s.toast_on_failure
    &&& s.notification_sound@ == "off"@
    &&& !s.openclaw_paired
    &&& s.openclaw_device_id@.len() == 0
    &&& s.pairing_code@ == "DRK-7Q2-91A"@
    &&& s.api_bind_address@ == "127.0.0.1"@
    &&& !s.openclaw_auto_suggest_rules
    &&& s.openclaw_send_file_metadata
    &&& s.allowed_path_scopes@.len() == 2 && s.allowed_path_scopes@[0]@ == "~/Draction/Inbox"@ && s.allowed_path_scopes@[1]@ == "~/Draction/Work"@
    &&& !s.dangerous_nodes_enabled
    &&& s.allowed_dangerous_nodes@.len() == 0
    &&& s.require_confirmation_for@.len() == 2 && s.require_confirmation_for@[0]@ == "system_folders"@ && s.require_confirmation_for@[1]@ == "batch_ingest"@
    &&& s.db_path@ == "~/Draction/draction.db"@
    &&& s.rules_path@ == "~/Draction/rules.json"@
    &&& s.workflows_path@ == "~/Draction/workflows.json"@
    &&& s.log_level@ == "info"@
    &&& s.log_retention_days == 14
    &&& s.api_port == 9400
    &&& s.max_file_size_mb == 500
}

/// `s` holds the default value of every setting.
pub open spec fn is_default_settings(s: Settings) -> bool {
    &&& general_is_default(s)
    &&& inbox_is_default(s)
    &&& draky_is_default(s)
    &&& others_are_default(s)
}

pub open spec fn same_general(a: Settings, b: Settings) -> bool {
    &&& a.launch_at_login == b.launch_at_login
    &&& a.show_draky_on_launch == b.show_draky_on_launch
    &&& a.run_minimized == b.run_minimized
    &&& a.theme == b.theme
    &&& a.accent_color == b.accent_color
    &&& a.reduce_motion == b.reduce_motion
    &&& a.language == b.language
    &&& a.date_format == b.date_format
}

pub open spec fn same_inbox(a: Settings, b: Settings) -> bool {
    &&& a.inbox_location == b.inbox_location
    &&& a.conflict_resolution == b.conflict_resolution
    &&& a.delete_source_after_ingest == b.delete_source_after_ingest
    &&& a.date_subfolders == b.date_subfolders
    &&& a.inbox_size_limit_gb == b.inbox_size_limit_gb
    &&& a.auto_archive_days == b.auto_archive_days
    &&& a.undo_window_seconds == b.undo_window_seconds
    &&& a.undo_history_depth == b.undo_history_depth
}

pub open spec fn same_draky(a: Settings, b: Settings) -> bool {
    &&& a.draky_size == b.draky_size
    &&& a.draky_personality == b.draky_personality
    &&& a.draky_always_on_top == b.draky_always_on_top
    &&& a.draky_overlay_visible == b.draky_overlay_visible
    &&& a.draky_snap_to_corner == b.draky_snap_to_corner
    &&& a.draky_burp_on_success == b.draky_burp_on_success
    &&& a.draky_idle_behaviors == b.draky_idle_behaviors
    &&& a.draky_file_type_munch == b.draky_file_type_munch
}

pub open spec fn same_others(a: Settings, b: Settings) -> bool {
    &&& a.match_policy == b.match_policy
    &&& a.concurrency == b.concurrency
    &&& a.unmatched_files_policy == b.unmatched_files_policy
    &&& a.node_failure_policy == b.node_failure_policy
    &&& a.auto_retry == b.auto_retry
    &&& a.keep_partial_artifacts == b.keep_partial_artifacts
    &&& a.toast_on_success == b.toast_on_success
    &&& a.toast_on_failure == b.toast_on_failure
    &&& a.notification_sound == b.notification_sound
    &&& a.openclaw_paired == b.openclaw_paired
    &&& a.openclaw_device_id == b.openclaw_device_id
    &&& a.pairing_code == b.pairing_code
    &&& a.api_bind_address == b.api_bind_address
    &&& a.openclaw_auto_suggest_rules == b.openclaw_auto_suggest_rules
    &&& a.openclaw_send_file_metadata == b.openclaw_send_file_metadata
    &&& a.allowed_path_scopes == b.allowed_path_scopes
    &&& a.dangerous_nodes_enabled == b.dangerous_nodes_enabled
    &&& a.allowed_dangerous_nodes == b.allowed_dangerous_nodes
    &&& a.require_confirmation_for == b.require_confirmation_for
    &&& a.db_path == b.db_path
    &&& a.rules_path == b.rules_path
    &&& a.workflows_path == b.workflows_path
    &&& a.log_level == b.log_level
    &&& a.log_retention_days == b.log_retention_days
    &&& a.api_port == b.api_port
    &&& a.max_file_size_mb == b.max_file_size_mb
}

impl Default for Settings {
    fn default() -> (s: Settings)
        ensures
            is_default_settings(s),
    {
        let s = Settings {
            launch_at_login: false,
            show_draky_on_launch: true,
            run_minimized: false,
            theme: owned("dark"),
            accent_color: owned("#2dd4bf"),
            reduce_motion: false,
            language: owned("en"),
            date_format: owned("YYYY-MM-DD"),
            inbox_location: owned("~/Draction/Inbox"),
            conflict_resolution: owned("append_timestamp"),
            delete_source_after_ingest: false,
            date_subfolders: true,
            inbox_size_limit_gb: 10,
            auto_archive_days: 30,
            undo_history_depth: 5,
            match_policy: owned("first_match"),
            concurrency: 1,
            undo_window_seconds: 10,
            unmatched_files_policy: owned("keep_inbox"),
            node_failure_policy: owned("fail_fast"),
            auto_retry: false,
            keep_partial_artifacts: true,
            toast_on_success: true,
            toast_on_failure: true,
            notification_sound: owned("off"),
            draky_size: owned("medium"),
            draky_personality: owned("friendly"),
            draky_always_on_top: true,
            draky_overlay_visible: true,
            draky_snap_to_corner: true,
            draky_burp_on_success: true,
            draky_idle_behaviors: true,
            draky_file_type_munch: true,
            openclaw_paired: false,
            openclaw_device_id: String::new(),
            pairing_code: owned("DRK-7Q2-91A"),
            api_bind_address: owned("127.0.0.1"),
            openclaw_auto_suggest_rules: false,
            openclaw_send_file_metadata: true,
            allowed_path_scopes: {
                let mut v = Vec::new();
                v.push(owned("~/Draction/Inbox"));
                v.push(owned("~/Draction/Work"));
                v
            },
            dangerous_nodes_enabled: false,
            allowed_dangerous_nodes: Vec::new(),
            require_confirmation_for: {
                let mut v = Vec::new();
                v.push(owned("system_folders"));
                v.push(owned("batch_ingest"));
                v
            },
            db_path: owned("~/Draction/draction.db"),
            rules_path: owned("~/Draction/rules.json"),
            workflows_path: owned("~/Draction/workflows.json"),
            log_level: owned("info"),
            log_retention_days: 14,
            api_port: 9400,
            max_file_size_mb: 500,
        };
        s
    }
}


/// `x` is one of `options`.
pub open spec fn one_of(x: Seq<char>, options: Seq<Seq<char>>) -> bool {
    options.contains(x)
}

/// The first thing wrong with `s`, in the order the checks are made, as its message.
pub open spec fn settings_problem(s: Settings) -> Option<Seq<char>> {
    if s.undo_window_seconds == 0 {
        Some("undo_window_seconds must be positive"@)
    } else if s.undo_history_depth == 0 || s.undo_history_depth > 50 {
        Some("undo_history_depth must be between 1 and 50"@)
    } else if s.concurrency == 0 || s.concurrency > 8 {
        Some("concurrency must be between 1 and 8"@)
    } else if s.inbox_size_limit_gb == 0 || s.inbox_size_limit_gb > 1024 {
        Some("inbox_size_limit_gb must be between 1 and 1024"@)
    } else if s.max_file_size_mb == 0 {
        Some("max_file_size_mb must be positive"@)
    } else if !one_of(s.theme@, seq!["system"@, "light"@, "dark"@]) {
        Some("theme must be one of: system, light, dark"@)
    } else if !one_of(s.conflict_resolution@, seq!["append_timestamp"@, "rename"@, "overwrite"@, "skip"@]) {
        Some("conflict_resolution is invalid"@)
    } else if !one_of(s.match_policy@, seq!["first_match"@, "first_wins"@, "all_matches"@, "all_matching"@]) {
        Some("match_policy is invalid"@)
    } else if !one_of(s.log_level@, seq!["trace"@, "debug"@, "info"@, "warn"@, "error"@]) {
        Some("log_level is invalid"@)
    } else {
        None
    }
}

/// Checks the settings an update would store; the error is the message of the first
/// check that fails.
pub fn validate_settings(s: &Settings) -> (r: Result<(), String>)
    ensures
        match settings_problem(*s) {
            None => r is Ok,
            Some(m) => r matches Err(e) && e@ == m,
        },
{
    if s.undo_window_seconds == 0 {
        return Err(owned("undo_window_seconds must be positive"));
    }
    if s.undo_history_depth == 0 || s.undo_history_depth > 50 {
        return Err(owned("undo_history_depth must be between 1 and 50"));
    }
    if s.concurrency == 0 || s.concurrency > 8 {
        return Err(owned("concurrency must be between 1 and 8"));
    }
    if s.inbox_size_limit_gb == 0 || s.inbox_size_limit_gb > 1024 {
        return Err(owned("inbox_size_limit_gb must be between 1 and 1024"));
    }
    if s.max_file_size_mb == 0 {
        return Err(owned("max_file_size_mb must be positive"));
    }
    if !(str_eq(s.theme.as_str(), "system") || str_eq(s.theme.as_str(), "light") || str_eq(s.theme.as_str(), "dark")) {
        return Err(owned("theme must be one of: system, light, dark"));
    }
    if !(str_eq(s.conflict_resolution.as_str(), "append_timestamp") || str_eq(s.conflict_resolution.as_str(), "rename") || str_eq(s.conflict_resolution.as_str(), "overwrite") || str_eq(s.conflict_resolution.as_str(), "skip")) {
        return Err(owned("conflict_resolution is invalid"));
    }
    if !(str_eq(s.match_policy.as_str(), "first_match") || str_eq(s.match_policy.as_str(), "first_wins") || str_eq(s.match_policy.as_str(), "all_matches") || str_eq(s.match_policy.as_str(), "all_matching")) {
        return Err(owned("match_policy is invalid"));
    }
    if !(str_eq(s.log_level.as_str(), "trace") || str_eq(s.log_level.as_str(), "debug") || str_eq(s.log_level.as_str(), "info") || str_eq(s.log_level.as_str(), "warn") || str_eq(s.log_level.as_str(), "error")) {
        return Err(owned("log_level is invalid"));
    }
    Ok(())
}

impl Settings {
    /// Puts one section of the settings back to its defaults: "general", "inbox" or "draky".
    pub fn reset_section(&mut self, section: &str) -> (r: Result<(), String>)
        ensures
            section@ == "general"@ ==> r is Ok && general_is_default(*final(self)) && same_inbox(*old(self), *final(self))
                && same_draky(*old(self), *final(self)) && same_others(*old(self), *final(self)),
            section@ == "inbox"@ ==> r is Ok && inbox_is_default(*final(self)) && same_general(*old(self), *final(self))
                && same_draky(*old(self), *final(self)) && same_others(*old(self), *final(self)),
            section@ == "draky"@ ==> r is Ok && draky_is_default(*final(self)) && same_general(*old(self), *final(self))
                && same_inbox(*old(self), *final(self)) && same_others(*old(self), *final(self)),
            section@ != "general"@ && section@ != "inbox"@ && section@ != "draky"@ ==> (r matches Err(e)
                && e@ == "Unknown settings section: "@ + section@) && *final(self) == *old(self),
    {
        proof {
            reveal_strlit("general");
            reveal_strlit("inbox");
            reveal_strlit("draky");
        }
        if str_eq(section, "general") {
            proof {
                assert("general"@.len() == 7);
                assert("inbox"@.len() == 5);
                assert("draky"@.len() == 5);
            }
            let d = Settings::default();
            self.launch_at_login = d.launch_at_login;
            self.show_draky_on_launch = d.show_draky_on_launch;
            self.run_minimized = d.run_minimized;
            self.theme = d.theme;
            self.accent_color = d.accent_color;
            self.reduce_motion = d.reduce_motion;
            self.language = d.language;
            self.date_format = d.date_format;
            Ok(())
        } else if str_eq(section, "inbox") {
            proof {
                assert("inbox"@[0] == 'i');
                assert("draky"@[0] == 'd');
            }
            let d = Settings::default();
            self.inbox_location = d.inbox_location;
            self.conflict_resolution = d.conflict_resolution;
            self.delete_source_after_ingest = d.delete_source_after_ingest;
            self.date_subfolders = d.date_subfolders;
            self.inbox_size_limit_gb = d.inbox_size_limit_gb;
            self.auto_archive_days = d.auto_archive_days;
            self.undo_window_seconds = d.undo_window_seconds;
            self.undo_history_depth = d.undo_history_depth;
            Ok(())
        } else if str_eq(section, "draky") {
            let d = Settings::default();
            self.draky_size = d.draky_size;
            self.draky_personality = d.draky_personality;
            self.draky_always_on_top = d.draky_always_on_top;
            self.draky_overlay_visible = d.draky_overlay_visible;
            self.draky_snap_to_corner = d.draky_snap_to_corner;
            self.draky_burp_on_success = d.draky_burp_on_success;
            self.draky_idle_behaviors = d.draky_idle_behaviors;
            self.draky_file_type_munch = d.draky_file_type_munch;
            Ok(())
        } else {
            let mut e = owned("Unknown settings section: ");
            e.append(section);
            Err(e)
        }
    }
}

} // verus!
