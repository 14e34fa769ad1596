pub mod archive;
pub mod author_metadata;
pub mod conflicts;
pub mod deployment;
pub mod detector;
pub mod efmi_copy;
pub mod efmi_direct;
pub mod efmi_ini;
pub mod error;
pub mod facts;
pub mod game;
pub mod ids;
pub mod ini_facts;
pub mod ini_parse;
pub mod installer;
pub mod metadata;
pub mod mod_scan;
pub mod mod_sync;
pub mod names;
pub mod order;
pub mod path_analyzer;
pub mod path_safety;
pub mod preview;
pub mod profile_switch;
pub mod profiles;
pub mod reorder;
pub mod root_detector;
pub mod repository;
pub mod scanner;
pub mod services;
pub mod settings;
pub mod text;
