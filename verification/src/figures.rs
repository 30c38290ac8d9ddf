//! The figures that the modules go by.

use vstd::prelude::*;

use crate::palette::app_launcher;
use crate::palette::links;
use crate::palette::module;
use crate::palette::note_search;
use crate::palette::recent_docs;
use crate::palette::ref_search;
use crate::palette::unicode;
use crate::remote::gpu;
use crate::remote::host;
use crate::remote::jobs;
use crate::remote::ssh_monitor;
use crate::{
    anki_due, anki_review, arxiv_watch, clock, context_engine, focus, interruption, project_pulse,
    reference_library, rubber_duck,
};

verus! {

/// How long things last and how often they are looked at.
pub proof fn law_times()
    ensures
        interruption::MIN_AWAY_SECS == 2 * 60,
        anki_review::COOLDOWN_NANOS == 60 * 60 * 1_000_000_000,
        clock::LOOKAHEAD_SECS == 7 * 24 * 60 * 60,
        project_pulse::DORMANT_SECS == 7 * 24 * 60 * 60,
        project_pulse::DEADLINE_SECS == 30 * 24 * 60 * 60,
        reference_library::RECENT_SECS == 14 * 24 * 60 * 60,
        arxiv_watch::DEFAULT_POLL_MINUTES == 60,
        focus::DEFAULT_TICK_MILLIS == 1000,
        context_engine::DEFAULT_TICK_MILLIS == 500,
        rubber_duck::config::DEFAULT_TIMEOUT_SECS == 2 * 60,
        host::DEFAULT_CONNECT_TIMEOUT_SECS == 5,
        jobs::DEFAULT_POLL_INTERVAL_SECS == 30,
        gpu::DEFAULT_POLL_INTERVAL_SECS == 15,
        ssh_monitor::DEFAULT_POLL_INTERVAL_SECS == 30,
        jobs::EXTRA_SECS == 3,
        gpu::EXTRA_SECS == 2,
        ssh_monitor::EXTRA_SECS == 1,
{
}

/// How many are asked for, kept and shown.
pub proof fn law_numbers_of_things()
    ensures
        module::MAX_RESULTS == 256,
        app_launcher::MAX_APPS == 256,
        note_search::MAX_HITS == 10,
        ref_search::MAX_HITS == 10,
        links::MAX_HITS == 5,
        links::MAX_NEIGHBOURS == 12,
        recent_docs::MAX_RESULTS == 12,
        unicode::MAX_SYMBOLS == 12,
        clock::MAX_EVENTS == 12,
        anki_due::DUE_QUERY_LIMIT == 50_000,
        anki_review::DUE_QUERY_LIMIT == 10_000,
        arxiv_watch::MAX_SEEN == 2000,
        arxiv_watch::DEFAULT_MAX_RESULTS == 20,
        arxiv_watch::SUMMARY_CHARS == 280,
        reference_library::SCAN_LIMIT == 5000,
        project_pulse::TASK_LIMIT == 500,
        project_pulse::EVENT_LIMIT == 100,
        rubber_duck::MAX_MESSAGES == 128,
        context_engine::DEFAULT_AVAILABLE_WIDTH == 2560,
        context_engine::DEFAULT_INTER_WIDGET_GAP == 8,
{
}

} // verus!
