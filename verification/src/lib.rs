//! Indexing of manual pages found in software package archives.
//!
//! The heart of the crate is the link-resolution engine in [`archread`]: it
//! records every entry of an archive while the archive streams past, resolves
//! symbolic and hard links against that record once the stream has ended, and
//! plans the second read that fetches the files a link made interesting after
//! the fact. [`model`] states what that engine computes, and [`chains`],
//! [`reading`] and [`fetching`] what holds of it whatever the archive.
//!
//! Around it stand the rules that a crawler of package repositories needs:
//! which paths are manual pages and how their text is decoded ([`man`]), how
//! the indexes of the repositories are read (the `sys_` modules), where a file
//! is to be had from ([`open`]), and how a page is shown ([`web`]). Nothing in
//! this crate reads a file or talks to a network.

pub mod text;
pub mod resolve;
pub mod archive;
pub mod model;
pub mod chains;
pub mod reading;
pub mod fetching;
pub mod archread;
pub mod rx;
pub mod hash;
pub mod charset;
pub mod calendar;
pub mod urls;
pub mod man;
pub mod open;
pub mod pkg;
pub mod sys_arch;
pub mod sys_deb;
pub mod sys_freebsd1;
pub mod sys_freebsd2;
pub mod sys_rpm;
pub mod sys_rpmdir;
pub mod web;

