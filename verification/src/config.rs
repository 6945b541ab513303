//! Configuration of a color table's on-disk layout.

use vstd::prelude::*;

verus! {

broadcast use vstd::string::to_string_from_display_ensures_for_str;

/// Where a store keeps its two files inside its directory, and how large the
/// write buffer is.
#[derive(Clone, Debug)]
pub struct ColorTableConfig {
    pub buffer_size: usize,
    pub color_table_file_name: String,
    pub generations_file_name: String,
}

impl ColorTableConfig {
    /// A configuration with the given buffer size and file names.
    pub fn new(
        buffer_size: usize,
        color_table_file_name: String,
        generations_file_name: String,
    ) -> (r: ColorTableConfig)
        ensures
            r.buffer_size == buffer_size,
            r.color_table_file_name == color_table_file_name,
            r.generations_file_name == generations_file_name,
    {
        ColorTableConfig { buffer_size, color_table_file_name, generations_file_name }
    }

    /// Capacity of the write buffer in bytes.
    pub fn buffer_size(&self) -> (r: usize)
        ensures
            r == self.buffer_size,
    {
        self.buffer_size
    }

    /// Relative filename of the fragment table.
    pub fn color_table_file_name(&self) -> (r: &String)
        ensures
            r == &self.color_table_file_name,
    {
        &self.color_table_file_name
    }

    /// Relative filename of the generation sidecar.
    pub fn generations_file_name(&self) -> (r: &String)
        ensures
            r == &self.generations_file_name,
    {
        &self.generations_file_name
    }
}

impl Default for ColorTableConfig {
    /// The defaults: a 1 MiB write buffer, and the customary file names.
    fn default() -> (r: ColorTableConfig)
        ensures
            r.buffer_size == 0x10_0000usize,
            r.color_table_file_name@ == "color_table"@,
            r.generations_file_name@ == "generations"@,
    {
        ColorTableConfig {
            buffer_size: 0x10_0000,
            color_table_file_name: "color_table".to_string(),
            generations_file_name: "generations".to_string(),
        }
    }
}

} // verus!
