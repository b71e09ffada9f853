use vstd::prelude::*;
use crate::docker::DockerImage;
use crate::dockerfile::Dockerfile;

verus! {

/// The two views of the application.
#[derive(Debug, Clone, Copy, PartialEq, Eq, Structural)]
pub enum ActiveTab {
    ImageInspector,
    DockerfileAnalyzer,
}

/// The state that the application's views show.
#[derive(Debug, Clone)]
pub struct LayersApp {
    pub active_tab: ActiveTab,
    pub image: Option<DockerImage>,
    pub image_name: String,
    pub selected_layer: Option<usize>,
    pub loading: bool,
    pub error_message: Option<String>,
    pub dockerfile: Option<Dockerfile>,
    pub dockerfile_content: String,
    pub dockerfile_analysis: Vec<(String, String)>,
}

impl LayersApp {
    /// The state at start: the image inspector, nothing loaded, no error.
    pub fn new() -> (r: LayersApp)
        ensures
            r.active_tab == ActiveTab::ImageInspector,
            r.image is None,
            r.image_name@.len() == 0,
            r.selected_layer is None,
            !r.loading,
            r.error_message is None,
            r.dockerfile is None,
            r.dockerfile_content@.len() == 0,
            r.dockerfile_analysis@.len() == 0,
    {
        LayersApp {
            active_tab: ActiveTab::ImageInspector,
            image: None,
            image_name: String::new(),
            selected_layer: None,
            loading: false,
            error_message: None,
            dockerfile: None,
            dockerfile_content: String::new(),
            dockerfile_analysis: Vec::new(),
        }
    }

    /// Starts or ends loading; starting clears the error shown.
    pub fn set_loading(&mut self, loading: bool)
        ensures
            final(self).loading == loading,
            final(self).error_message == if loading {
                None
            } else {
                old(self).error_message
            },
            final(self).active_tab == old(self).active_tab,
            final(self).image == old(self).image,
            final(self).image_name == old(self).image_name,
            final(self).selected_layer == old(self).selected_layer,
            final(self).dockerfile == old(self).dockerfile,
            final(self).dockerfile_content == old(self).dockerfile_content,
            final(self).dockerfile_analysis == old(self).dockerfile_analysis,
    {
        self.loading = loading;
        if loading {
            self.error_message = None;
        }
    }

    /// Sets the name of the image to inspect.
    pub fn set_image_name(&mut self, name: String)
        ensures
            final(self).image_name == name,
            final(self).active_tab == old(self).active_tab,
            final(self).image == old(self).image,
            final(self).selected_layer == old(self).selected_layer,
            final(self).loading == old(self).loading,
            final(self).error_message == old(self).error_message,
            final(self).dockerfile == old(self).dockerfile,
            final(self).dockerfile_content == old(self).dockerfile_content,
            final(self).dockerfile_analysis == old(self).dockerfile_analysis,
    {
        self.image_name = name;
    }

    /// Shows an inspected image; loading ends and the error is cleared.
    pub fn set_image(&mut self, image: DockerImage)
        ensures
            final(self).image == Some(image),
            !final(self).loading,
            final(self).error_message is None,
            final(self).active_tab == old(self).active_tab,
            final(self).image_name == old(self).image_name,
            final(self).selected_layer == old(self).selected_layer,
            final(self).dockerfile == old(self).dockerfile,
            final(self).dockerfile_content == old(self).dockerfile_content,
            final(self).dockerfile_analysis == old(self).dockerfile_analysis,
    {
        self.image = Some(image);
        self.loading = false;
        self.error_message = None;
    }

    /// Shows an error; loading ends.
    pub fn set_error(&mut self, error: String)
        ensures
            final(self).error_message == Some(error),
            !final(self).loading,
            final(self).active_tab == old(self).active_tab,
            final(self).image == old(self).image,
            final(self).image_name == old(self).image_name,
            final(self).selected_layer == old(self).selected_layer,
            final(self).dockerfile == old(self).dockerfile,
            final(self).dockerfile_content == old(self).dockerfile_content,
            final(self).dockerfile_analysis == old(self).dockerfile_analysis,
    {
        self.error_message = Some(error);
        self.loading = false;
    }

    /// Shows a parsed Dockerfile; loading ends and the error is cleared.
    pub fn set_dockerfile(&mut self, dockerfile: Dockerfile)
        ensures
            final(self).dockerfile == Some(dockerfile),
            !final(self).loading,
            final(self).error_message is None,
            final(self).active_tab == old(self).active_tab,
            final(self).image == old(self).image,
            final(self).image_name == old(self).image_name,
            final(self).selected_layer == old(self).selected_layer,
            final(self).dockerfile_content == old(self).dockerfile_content,
            final(self).dockerfile_analysis == old(self).dockerfile_analysis,
    {
        self.dockerfile = Some(dockerfile);
        self.loading = false;
        self.error_message = None;
    }

    /// Shows the findings of a Dockerfile analysis.
    pub fn set_dockerfile_analysis(&mut self, analysis: Vec<(String, String)>)
        ensures
            final(self).dockerfile_analysis == analysis,
            final(self).active_tab == old(self).active_tab,
            final(self).image == old(self).image,
            final(self).image_name == old(self).image_name,
            final(self).selected_layer == old(self).selected_layer,
            final(self).loading == old(self).loading,
            final(self).error_message == old(self).error_message,
            final(self).dockerfile == old(self).dockerfile,
            final(self).dockerfile_content == old(self).dockerfile_content,
    {
        self.dockerfile_analysis = analysis;
    }

    /// Switches to view `tab`.
    pub fn switch_tab(&mut self, tab: ActiveTab)
        ensures
            final(self).active_tab == tab,
            final(self).image == old(self).image,
            final(self).image_name == old(self).image_name,
            final(self).selected_layer == old(self).selected_layer,
            final(self).loading == old(self).loading,
            final(self).error_message == old(self).error_message,
            final(self).dockerfile == old(self).dockerfile,
            final(self).dockerfile_content == old(self).dockerfile_content,
            final(self).dockerfile_analysis == old(self).dockerfile_analysis,
    {
        self.active_tab = tab;
    }
}

} // verus!
