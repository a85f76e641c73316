//! Pages with server scripts: what a web server decides, computes and renders between reading a
//! file and sending the answer.
//!
//! `route` decides step by step how a request is answered, `request` and `headers` make up what
//! scripts see of it, `tags` finds the `<script server>` elements of a page and replaces them,
//! `engine`, `globals` and `scripts` run them, and `host` is what they can change and look up.
//! `parts` states of what a rendered page consists, and `moved` what becomes of the scripts of a page
//! when text is put in front of it.
pub mod engine;
pub mod globals;
pub mod headers;
pub mod host;
pub mod moved;
pub mod parts;
pub mod paths;
pub mod request;
pub mod route;
pub mod scripts;
pub mod string_map;
pub mod tags;
pub mod text;
