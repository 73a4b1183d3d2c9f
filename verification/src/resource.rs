//! The cloud resources that a panel can stand for.

use vstd::prelude::*;

verus! {

/// A cloud resource, known by its id (instances) or by its name (tables and buckets).
#[derive(Debug, Hash, PartialEq, Eq)]
pub enum AWSResource {
    Instance(String),
    Table(String),
    Bucket(String),
}

/// What an [`AWSResource`] is: the service and the text of the id or name.
pub enum ResourceView {
    Instance(Seq<char>),
    Table(Seq<char>),
    Bucket(Seq<char>),
}

impl View for AWSResource {
    type V = ResourceView;

    open spec fn view(&self) -> ResourceView {
        match self {
            AWSResource::Instance(id) => ResourceView::Instance(id@),
            AWSResource::Table(name) => ResourceView::Table(name@),
            AWSResource::Bucket(name) => ResourceView::Bucket(name@),
        }
    }
}

impl Clone for AWSResource {
    fn clone(&self) -> (copy: Self)
        ensures
            copy@ == self@,
    {
        match self {
            AWSResource::Instance(id) => AWSResource::Instance(id.clone()),
            AWSResource::Table(name) => AWSResource::Table(name.clone()),
            AWSResource::Bucket(name) => AWSResource::Bucket(name.clone()),
        }
    }
}

impl ResourceView {
    /// The red, green, blue and white levels that show the service of the resource.
    pub open spec fn color(self) -> Seq<char> {
        match self {
            ResourceView::Instance(_) => "247 142 4 0"@,
            ResourceView::Table(_) => "77 114 243 0"@,
            ResourceView::Bucket(_) => "96 163 55 0"@,
        }
    }
}

impl AWSResource {
    /// The color of the service: yellow for instances, blue for tables, green for buckets.
    pub fn color(&self) -> (text: &'static str)
        ensures
            text@ == self@.color(),
            self is Instance ==> text@ == "247 142 4 0"@,
            self is Table ==> text@ == "77 114 243 0"@,
            self is Bucket ==> text@ == "96 163 55 0"@,
    {
        match self {
            AWSResource::Instance(_) => "247 142 4 0",
            AWSResource::Table(_) => "77 114 243 0",
            AWSResource::Bucket(_) => "96 163 55 0",
        }
    }
}

/// A resource is its service and its id or name, no more and no less.
pub proof fn law_resource(resource: AWSResource)
    ensures
        resource matches AWSResource::Instance(id) ==> resource@ == ResourceView::Instance(id@),
        resource matches AWSResource::Table(name) ==> resource@ == ResourceView::Table(name@),
        resource matches AWSResource::Bucket(name) ==> resource@ == ResourceView::Bucket(name@),
{
}

/// The color is a matter of the service alone: all instances are yellow, all tables blue and all
/// buckets green, whatever their ids and names.
pub proof fn law_color(text: Seq<char>)
    ensures
        ResourceView::Instance(text).color() == seq![
            '2',
            '4',
            '7',
            ' ',
            '1',
            '4',
            '2',
            ' ',
            '4',
            ' ',
            '0',
        ],
        ResourceView::Table(text).color() == seq![
            '7',
            '7',
            ' ',
            '1',
            '1',
            '4',
            ' ',
            '2',
            '4',
            '3',
            ' ',
            '0',
        ],
        ResourceView::Bucket(text).color() == seq![
            '9',
            '6',
            ' ',
            '1',
            '6',
            '3',
            ' ',
            '5',
            '5',
            ' ',
            '0',
        ],
{
    reveal_strlit("247 142 4 0");
    reveal_strlit("77 114 243 0");
    reveal_strlit("96 163 55 0");
    assert("247 142 4 0"@ =~= ResourceView::Instance(text).color());
}

/// Two resources have the same color exactly if they belong to the same service.
pub proof fn law_color_tells_service(a: ResourceView, b: ResourceView)
    ensures
        a.color() == b.color() <==> (a is Instance <==> b is Instance) && (a is Table <==> b is Table)
            && (a is Bucket <==> b is Bucket),
{
    reveal_strlit("247 142 4 0");
    reveal_strlit("77 114 243 0");
    reveal_strlit("96 163 55 0");
    assert("247 142 4 0"@[0] == '2');
    assert("77 114 243 0"@[0] == '7');
    assert("96 163 55 0"@[0] == '9');
}

} // verus!
