//! The records the site serves.
use vstd::prelude::*;

verus! {

/// One technology and how well it is known.
pub struct TechDes {
    pub tech_name: String,
    pub tech_logo: String,
    pub project_site: String,
    pub skill_level: u8,
    pub tech_cat: Vec<String>,
}

/// One project and where to find it.
pub struct ProjectDes {
    pub project_name: String,
    pub website_link: Option<String>,
    pub github_link: Option<String>,
    pub forgejo_link: Option<String>,
    pub dockerhub_link: Option<String>,
    pub project_img: Option<String>,
    pub techs_used: Vec<String>,
    pub project_des: String,
}

/// A blog post, or the preview of one, as the site serves it.
pub struct BlogContent {
    pub blog_file_name: String,
    pub date_last_edit: String,
    pub blog_title: String,
    pub tags: Vec<String>,
    pub html_blog_content: String,
}

/// One position held.
pub struct ExpDes {
    pub postition: String,
    pub company: String,
    pub location: String,
    pub start_month: String,
    pub end_month: String,
}

/// Work and volunteer experience.
pub struct TypeExp {
    pub experience_jobs: Vec<ExpDes>,
    pub experience_vol: Vec<ExpDes>,
}

/// The views of a sequence of strings.
pub open spec fn string_views(v: Seq<String>) -> Seq<Seq<char>> {
    v.map_values(|t: String| t@)
}

} // verus!
