//! Arguments of the command-line tools, as plain values.
use vstd::prelude::*;

verus! {

/// Relocate every track file into `directory`, on a copy (`out`) of the
/// library database `input`.
#[derive(Debug)]
pub struct ConvertArgs {
    pub input: String,
    pub out: String,
    pub directory: String,
}

/// Render the mix whose rows are in the table `input` into `out`.
#[derive(Debug)]
pub struct CreateMixArgs {
    pub input: String,
    pub out: String,
}

/// List a playlist; optionally write its rows as a mix table to `out`.
#[derive(Debug)]
pub struct PlaylistArgs {
    pub playlist_id: i32,
    pub out: Option<String>,
}

/// Render one slice of a track. Tempi are in thousandths of a beat per
/// minute.
#[derive(Debug)]
pub struct SliceArgs {
    pub id: i32,
    pub from_hotcue: u8,
    pub from_offset: i32,
    pub to_hotcue: u8,
    pub to_offset: i32,
    pub bpm: u32,
    pub to_bpm: Option<u32>,
    pub out: String,
}

/// Render one cross-fade between two tracks. The tempo is in thousandths
/// of a beat per minute.
#[derive(Debug)]
pub struct CrossFadeArgs {
    pub a_id: i32,
    pub a_hotcue: u8,
    pub b_id: i32,
    pub b_hotcue: u8,
    pub crossfade: u32,
    pub bpm: u32,
    pub out: String,
}

} // verus!
