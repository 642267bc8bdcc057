use vstd::prelude::*;

pub mod text;
pub mod json;
pub mod assoc;
pub mod bitmap;
pub mod paths;
pub mod jtext;
pub mod collate;
pub mod derive;
pub mod engine;
pub mod resolve;
pub mod album;
pub mod colors;
pub mod tagcheck;
pub mod manifest;
pub mod lyrics;
pub mod nix;
pub mod watch;
pub mod logic_def;
pub mod library;
pub mod targets;
pub mod cache;
pub mod lockbuild;
pub mod status;
pub mod socket;
pub mod nixplan;
pub mod toml;
pub mod nixgen;
pub mod jmap;
pub mod serveractions;
pub mod reload;
pub mod jsort;
pub mod anchor;
pub mod keys;
pub mod assets;
pub mod playlist;
pub mod torrent;

verus! {

} // verus!
