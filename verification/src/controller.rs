//! What is sent to the controller of the panels.

use vstd::prelude::*;
use vstd::string::StringExecFns;

verus! {

/// A command to the controller.
#[derive(Debug)]
pub enum NanoleafCommand {
    Custom {
        command: String,
        anim_type: String,
        anim_data: String,
        looping: bool,
        palette: Vec<String>,
    },
}

/// A request that shows a frame: the command is sent to the address.
#[derive(Debug)]
pub struct DisplayRequest {
    pub url: String,
    pub command: NanoleafCommand,
}

/// A [`DisplayRequest`], the parts of its command one by one and all texts by their views.
#[verifier::ext_equal]
pub struct DisplayRequestView {
    pub url: Seq<char>,
    pub command: Seq<char>,
    pub anim_type: Seq<char>,
    pub anim_data: Seq<char>,
    pub looping: bool,
    pub palette: Seq<Seq<char>>,
}

impl View for DisplayRequest {
    type V = DisplayRequestView;

    open spec fn view(&self) -> DisplayRequestView {
        match self.command {
            NanoleafCommand::Custom { command, anim_type, anim_data, looping, palette } => {
                DisplayRequestView {
                    url: self.url@,
                    command: command@,
                    anim_type: anim_type@,
                    anim_data: anim_data@,
                    looping,
                    palette: palette@.map_values(|color: String| color@),
                }
            },
        }
    }
}

/// The request that shows the frame `data` without an end.
pub open spec fn frame_request(api_url: Seq<char>, data: Seq<char>) -> DisplayRequestView {
    DisplayRequestView {
        url: api_url + "/effects"@,
        command: "display"@,
        anim_type: "static"@,
        anim_data: data,
        looping: false,
        palette: Seq::empty(),
    }
}

/// A request for the stream of touches, restricted by a query of one key and its value.
#[derive(Debug)]
pub struct EventsRequest {
    pub url: String,
    pub key: String,
    pub value: String,
}

/// The address of the controller's interface, which the token opens.
pub fn api_url(ip: &str, token: &str) -> (url: String)
    ensures
        url@ == "http://"@ + ip@ + ":16021/api/v1/"@ + token@,
{
    let mut url = "http://".to_owned();
    url.append(ip);
    url.append(":16021/api/v1/");
    url.append(token);
    url
}

/// The address of the report on the panels.
pub fn panels_url(api_url: &str) -> (url: String)
    ensures
        url@ == api_url@ + "/"@,
{
    let mut url = api_url.to_owned();
    url.append("/");
    url
}

/// The request that shows the frame `data` without an end.
pub fn display_request(api_url: &str, data: &str) -> (request: DisplayRequest)
    ensures
        request@ == frame_request(api_url@, data@),
        request.url@ == api_url@ + "/effects"@,
        request.command matches NanoleafCommand::Custom {
            command,
            anim_type,
            anim_data,
            looping,
            palette,
        } && command@ == "display"@ && anim_type@ == "static"@ && anim_data@ == data@ && !looping
            && palette@.len() == 0,
{
    let mut url = api_url.to_owned();
    url.append("/effects");
    let command = NanoleafCommand::Custom {
        command: "display".to_owned(),
        anim_type: "static".to_owned(),
        anim_data: data.to_owned(),
        looping: false,
        palette: Vec::new(),
    };
    let request = DisplayRequest { url, command };
    assert(request@ =~= frame_request(api_url@, data@));
    request
}

/// The request for the stream of touches.
pub fn events_request(api_url: &str) -> (request: EventsRequest)
    ensures
        request.url@ == api_url@ + "/events"@,
        request.key@ == "id"@,
        request.value@ == "4"@,
{
    let mut url = api_url.to_owned();
    url.append("/events");
    EventsRequest { url, key: "id".to_owned(), value: "4".to_owned() }
}

/// What a request to show a frame says: it goes to the effects of the controller and displays the
/// frame as it is, as a static animation that does not loop, without a palette.
pub proof fn law_frame_request(api_url: Seq<char>, data: Seq<char>)
    ensures
        frame_request(api_url, data).url == api_url + "/effects"@,
        frame_request(api_url, data).command == "display"@,
        frame_request(api_url, data).anim_type == "static"@,
        frame_request(api_url, data).anim_data == data,
        !frame_request(api_url, data).looping,
        frame_request(api_url, data).palette.len() == 0,
{
}

/// A request says what its parts say.
pub proof fn law_display_request(request: DisplayRequest)
    ensures
        request@.url == request.url@,
        request.command matches NanoleafCommand::Custom {
            command,
            anim_type,
            anim_data,
            looping,
            palette,
        } ==> (request@.command == command@ && request@.anim_type == anim_type@
            && request@.anim_data == anim_data@ && request@.looping == looping
            && request@.palette.len() == palette@.len()),
{
}

} // verus!
