//! Assembly of Debian maintainer scripts (`preinst`, `postinst`, `prerm`,
//! `postrm`) from three sources: fragment templates rendered with
//! placeholder values and accumulated per package and script
//! ([`autoscript`]); user-written scripts that carry a `#DEBHELPER#` marker
//! ([`script_subst`]); and a lookup that finds the most specific override
//! file for a package, file name and unit ([`paths`]).

pub mod autoscript;
pub mod error;
pub mod file_map;
pub mod paths;
pub mod script_subst;
pub mod text;
pub mod util;
