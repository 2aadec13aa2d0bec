//! An OOXML word-processing model over a CRDT block tree: value types, the readers and
//! writers of the package parts, and the editing operations, each with a proved contract.

pub mod strs;
pub mod strmap;
pub mod keys;
pub mod types;
pub mod search;
pub mod xml;
pub mod events;
pub mod spans;
pub mod paragraph;
pub mod drawing;
pub mod para;
pub mod grid;
pub mod tables;
pub mod sections;
pub mod headers;
pub mod styles;
pub mod style_parse;
pub mod style_xml;
pub mod numbering;
pub mod comments;
pub mod rels;
pub mod package;
pub mod drawings;
pub mod textboxes;
pub mod passthrough;
pub mod error;
pub mod import_table;
pub mod import_text;
pub mod import;
pub mod store;
pub mod doc;
pub mod json;
pub mod runs;
pub mod props;
pub mod read;
pub mod writing;
pub mod containers;
pub mod edits;
pub mod anchors;
pub mod host;
pub mod structure;
pub mod formatting;
pub mod revisions;
pub mod export;
pub mod intake;
pub mod ranges;
pub mod places;
pub mod readback;
pub mod runback;
pub mod gridback;
pub mod walkback;
pub mod styleback;
pub mod sequence;
pub mod splitting;
pub mod resolving;
pub mod reverting;
pub mod moving;
pub mod settling;
pub mod alike;
pub mod commentback;
pub mod layers;
pub mod carrying;
pub mod names;
pub mod markup;
pub mod hearing;
pub mod telling;
pub mod retelling;
pub mod rereading;
pub mod celltold;
pub mod paratold;
pub mod pprtold;
pub mod wholepara;
pub mod tabletold;
pub mod wholetable;
pub mod wholebody;
pub mod pagetold;
pub mod selecting;
pub mod marking;
pub mod showing;
pub mod rangetold;
