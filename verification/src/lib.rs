//! Verified parsing, url building and decoding logic for a set of Aidoku
//! manga sources.
pub mod atsumaru;
pub mod batcave;
pub mod dynastyscans;
pub mod fandogamia;
pub mod dates;
pub mod hennoveltranslations;
pub mod json;
pub mod kagane;
pub mod latazamediollena;
pub mod mangaball;
pub mod mangafire;
pub mod mangakakalot;
pub mod mangakatana;
pub mod mangamura;
pub mod mangarawbest;
pub mod mangarawjp;
pub mod mangapill;
pub mod mangaplus;
pub mod model;
pub mod novelbuddy;
pub mod onisaga;
pub mod rawdevart;
pub mod readcomicsonline;
pub mod soraraw;
pub mod stonescape;
pub mod text;
pub mod url;
pub mod violetscans;
