//! GQL, a grammar-of-graphics language, and the decisions behind its plots.
//!
//! A script is lexed and parsed (`lexer`, `grammar`, `ast`) and compiled into
//! a blueprint (`compile`, `plot`): mappings of data columns to aesthetics,
//! layers with their geometries, stats and constants, scales, facets,
//! coordinates, theme steps and labels. Before drawing, `render` binds each
//! layer's aesthetics to data columns and settles the scales; `facet` splits
//! rows into panels; `layout` builds the tree of regions a plot occupies;
//! `data` reads CSV text and `svg` escapes and wraps text for SVG output.
pub mod aesthetic;
pub mod text;
pub mod error;
pub mod lexer;
pub mod grammar;
pub mod ast;
pub mod theme;
pub mod shape;
pub mod geom;
pub mod layout;
pub mod distinct;
pub mod scale;
pub mod plot;
pub mod compile;
pub mod render;
pub mod facet;
pub mod data;
pub mod svg;
