//! The commands: what each does to a repository and what it prints.

pub mod add;
pub mod cat_file;
pub mod check_ignore;
pub mod checkout;
pub mod commit;
pub mod hash_object;
pub mod init;
pub mod log;
pub mod ls_files;
pub mod ls_tree;
pub mod rev_parse;
pub mod rm;
pub mod show_ref;
pub mod status;
pub mod tag;
