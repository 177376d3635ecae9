//! The texts that the updater shows in the user's language.

use vstd::prelude::*;

verus! {

/// The texts that the updater shows in the user's language.
#[derive(Clone, Debug)]
pub struct Phrases {
    pub select_manager: String,
    pub reboot_failed: String,
    pub requires_auth: String,
    pub status_checking: String,
    pub status_failed: String,
    pub status_running: String,
    pub status_success: String,
    pub status_up_to_date: String,
    pub status_updates_available: String,
    pub system_up_to_date: String,
    pub updates_available: String,
    pub version_unknown: String,
    pub details_changelog_unavailable: String,
    pub details_current: String,
    pub details_manager: String,
    pub details_name: String,
    pub details_new: String,
    pub details_none: String,
    pub details_package: String,
    pub details_ref: String,
    pub details_scope: String,
    pub details_scope_system: String,
    pub details_scope_user: String,
    pub details_title: String,
}

} // verus!
