# darkicewolf50_cloud

The backend of a personal site: blog posts written in Markdown, a paged blog
listing, a project list that can be limited, skills, work experience, and static
files.

- `src/` is the verified library (Verus). `text` states line splitting, trimming,
  word splitting and joining over `Seq<char>`; `blog` reads a post's title, tags
  and body and assembles posts and previews; `listing` limits the project list and
  cuts the blog listing into pages; `files` splits a static-file request into name
  and extension; `dates` turns a modification time into a date through `time`;
  `markdown` renders previews through `comrak`.
- `app/` is the HTTP server (actix-web): it reads the files and directories,
  parses the YAML data, renders full posts, and serves JSON.
- `tests/` runs the library on concrete inputs.
