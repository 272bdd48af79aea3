pub mod arena;
pub mod builder;
pub mod expr;
pub mod fields;
pub mod growth;
pub mod interp;
pub mod ir;
pub mod laws;
pub mod layout;
pub mod leb128;
pub mod lower;
pub mod lowered;
pub mod machine;
pub mod meaning;
pub mod module;
pub mod proc;
pub mod references;
pub mod scope;
pub mod serialize;
pub mod sound;
pub mod sound_arm;
pub mod sound_builtin;
pub mod sound_call;
pub mod sound_cond;
pub mod sound_data;
pub mod sound_named;
pub mod sound_pointer;
pub mod sound_store;
pub mod sound_switch;
pub mod symbol;
