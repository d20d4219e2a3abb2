use vstd::prelude::*;
use crate::search::MatchResult;

verus! {

/// The single-slot record of the most recent successful search: the last
/// located window's title and size, the last template's size, and the last
/// match's offset and score. Overwritten as a whole by each recording
/// operation, so no partial update is ever observable; read by dependent
/// operations such as clicking the center of the last match.
pub struct SessionState {
    pub window_title: Option<String>,
    pub window_width: u32,
    pub window_height: u32,
    pub template_width: usize,
    pub template_height: usize,
    pub match_x: usize,
    pub match_y: usize,
    pub match_score: i128,
}

impl SessionState {
    /// A fresh session: no window recorded, all dimensions and the last
    /// match zeroed.
    pub fn new() -> (r: SessionState)
        ensures
            r.window_title is None,
            r.window_width == 0,
            r.window_height == 0,
            r.template_width == 0,
            r.template_height == 0,
            r.match_x == 0,
            r.match_y == 0,
            r.match_score == 0,
    {
        SessionState {
            window_title: None,
            window_width: 0,
            window_height: 0,
            template_width: 0,
            template_height: 0,
            match_x: 0,
            match_y: 0,
            match_score: 0,
        }
    }

    /// Record the window a later search will run against; the other fields
    /// keep their values.
    pub fn record_window(&mut self, title: String, width: u32, height: u32)
        ensures
            final(self).window_title == Some(title),
            final(self).window_width == width,
            final(self).window_height == height,
            final(self).template_width == old(self).template_width,
            final(self).template_height == old(self).template_height,
            final(self).match_x == old(self).match_x,
            final(self).match_y == old(self).match_y,
            final(self).match_score == old(self).match_score,
    {
        self.window_title = Some(title);
        self.window_width = width;
        self.window_height = height;
    }

    /// Record the dimensions of the template a search used; the other fields
    /// keep their values.
    pub fn record_template(&mut self, width: usize, height: usize)
        ensures
            final(self).template_width == width,
            final(self).template_height == height,
            final(self).window_title == old(self).window_title,
            final(self).window_width == old(self).window_width,
            final(self).window_height == old(self).window_height,
            final(self).match_x == old(self).match_x,
            final(self).match_y == old(self).match_y,
            final(self).match_score == old(self).match_score,
    {
        self.template_width = width;
        self.template_height = height;
    }

    /// Record a successful match; the window fields keep their values.
    pub fn record_match(&mut self, m: &MatchResult)
        ensures
            final(self).match_x == m.x,
            final(self).match_y == m.y,
            final(self).match_score == m.score,
            final(self).window_title == old(self).window_title,
            final(self).window_width == old(self).window_width,
            final(self).window_height == old(self).window_height,
            final(self).template_width == old(self).template_width,
            final(self).template_height == old(self).template_height,
    {
        self.match_x = m.x;
        self.match_y = m.y;
        self.match_score = m.score;
    }

    /// Replace the template and match fields together, as one successful
    /// search does; the stale values of both are fully overwritten before
    /// the call returns.
    pub fn record_search(&mut self, template_width: usize, template_height: usize, m: &MatchResult)
        ensures
            final(self).template_width == template_width,
            final(self).template_height == template_height,
            final(self).match_x == m.x,
            final(self).match_y == m.y,
            final(self).match_score == m.score,
            final(self).window_title == old(self).window_title,
            final(self).window_width == old(self).window_width,
            final(self).window_height == old(self).window_height,
    {
        self.record_template(template_width, template_height);
        self.record_match(m);
    }

    /// The x offset of the last recorded match.
    pub fn find_x(&self) -> (r: usize)
        ensures
            r == self.match_x,
    {
        self.match_x
    }

    /// The y offset of the last recorded match.
    pub fn find_y(&self) -> (r: usize)
        ensures
            r == self.match_y,
    {
        self.match_y
    }

    /// The score of the last recorded match.
    pub fn find_score(&self) -> (r: i128)
        ensures
            r == self.match_score,
    {
        self.match_score
    }

    /// The width of the last recorded window, in captured pixels; any
    /// physical-to-logical display scaling is the caller's concern.
    pub fn window_width(&self) -> (r: u32)
        ensures
            r == self.window_width,
    {
        self.window_width
    }

    /// The height of the last recorded window, in captured pixels.
    pub fn window_height(&self) -> (r: u32)
        ensures
            r == self.window_height,
    {
        self.window_height
    }

    /// The dimensions of the last recorded template.
    pub fn template_size(&self) -> (r: (usize, usize))
        ensures
            r.0 == self.template_width,
            r.1 == self.template_height,
    {
        (self.template_width, self.template_height)
    }
}

} // verus!
