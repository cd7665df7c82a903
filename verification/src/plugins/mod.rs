//! The plugins that ship with the launcher.
use std::sync::Arc;
use vstd::prelude::*;
use vstd::string::*;

use crate::config::{self, Config};
use crate::order;
use crate::pieces;
use crate::plugin::{self, Icon};
use crate::plugins::commands::Commands;
use crate::plugins::quicklinks::{Quicklinks, Shelf, StockIcons};
use crate::plugins::search::{Aliases, Desk, Search};
use crate::text;

pub mod command_laws;
pub mod commands;
pub mod links;
pub mod quicklink_laws;
pub mod quicklinks;
pub mod search;
pub mod search_laws;
pub mod shelf_laws;

verus! {

/// The plugin is enabled. It is, unless the configuration says otherwise.
pub open spec fn enabled(settings: Seq<config::Setting>, id: Seq<char>) -> bool {
    config::flag_of(settings, "plugins"@, text::lowered(id), true)
}

/// The plugins that are enabled, in the order they are asked.
pub struct Plugins {
    pub search: Option<Search>,
    pub quicklinks: Option<Quicklinks>,
    pub commands: Option<Commands>,
}

/// The plugins that are enabled. Those that are not are never made, so they
/// cost nothing. `folders` are the links that are folders.
pub fn plugins(
    config: &Config,
    icons: StockIcons,
    own_icon: Option<Arc<Icon>>,
    folders: &Vec<String>,
) -> (r: Plugins)
    ensures
        match r.search {
            Some(p) => enabled(config@, search::ID@) && p@ == (Desk {
                apps: Seq::empty(),
                aliases: config::entries_in(config@, "aliases"@),
            }),
            None => !enabled(config@, search::ID@),
        },
        match r.quicklinks {
            Some(p) => enabled(config@, quicklinks::ID@) && p@ == (Shelf {
                links: order::ranked(
                    quicklinks::links_of(
                        config::subtables_in(config@, quicklinks::ID@),
                        icons@,
                        pieces::strings(folders@),
                    ),
                    quicklinks::by_name(),
                ),
                art: icons@,
            }),
            None => !enabled(config@, quicklinks::ID@),
        },
        match r.commands {
            Some(p) => enabled(config@, commands::ID@) && p.icon() == plugin::shown(own_icon),
            None => !enabled(config@, commands::ID@),
        },
{
    let search = if config.plugin_enabled(search::ID) {
        Some(Search::new(Aliases::new(config.aliases_map())))
    } else {
        None
    };
    let quicklinks = if config.plugin_enabled(quicklinks::ID) {
        Some(Quicklinks::new(config.subtables(quicklinks::ID), icons, folders))
    } else {
        None
    };
    let commands = if config.plugin_enabled(commands::ID) {
        Some(Commands::new(own_icon))
    } else {
        None
    };
    Plugins { search, quicklinks, commands }
}

} // verus!
