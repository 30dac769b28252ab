use vstd::prelude::*;

use crate::status_bar::DisplayMode;

verus! {

/// The status-bar item that remembers commands to replay every time a
/// new board is set up.
pub struct OnBoardInit {
    command_list: Vec<String>,
}

impl Default for OnBoardInit {
    fn default() -> (r: Self)
        ensures
            r.commands_view().len() == 0,
    {
        OnBoardInit { command_list: Vec::new() }
    }
}

impl OnBoardInit {
    /// The remembered commands, in the order they were added.
    pub closed spec fn commands_view(&self) -> Seq<Seq<char>> {
        self.command_list.deep_view()
    }

    pub fn name(&self) -> (r: String)
        ensures
            r@ == "OnBoardInit"@,
    {
        "OnBoardInit".to_owned()
    }

    /// Activation remembers the current buffer as one more command.
    pub fn activated(&mut self, buffer: &String)
        ensures
            final(self).commands_view() == old(self).commands_view().push(buffer@),
    {
        self.command_list.push(buffer.clone());
        proof {
            assert(self.command_list.deep_view() =~= old(self).command_list.deep_view().push(
                buffer@,
            ));
        }
    }

    /// The commands to replay when a board is set up.
    pub fn commands(&self) -> (r: &Vec<String>)
        ensures
            r.deep_view() == self.commands_view(),
    {
        &self.command_list
    }

    pub fn display_mode(&self) -> (r: DisplayMode)
        ensures
            r is Hidden,
    {
        DisplayMode::Hidden
    }
}

} // verus!
