# rssg

A static site generator whose page-building logic is verified with Verus.

- `src/` is the library, every function in it with a contract that Verus proves:
  - `text`: text as sequences of characters: searching, replacing, trimming,
    splitting, numbers;
  - `utils`: escaping, slugs, URL paths, reading time, date formatting;
  - `frontmatter`: site configuration and page metadata, the front matter reader;
  - `render`: page rendering, JSON-LD, tag filters, post lists, pagination,
    sitemap, RSS feed, related articles;
  - `highlight`: Obsidian-style callouts and code blocks (highlighted with syntect);
  - `site`: URLs, Markdown (pulldown-cmark), ordering by date, listing pages,
    the template a build uses;
  - `listing`: which posts a section's index page and each tag page list, and
    how a listing is cut into pages;
  - `publish`: what a build writes: the published pages, every document
    (articles, listings, tag pages, sitemap, feed, 404 page, robots.txt) and
    its output path;
  - `images`, `serve`, `init`, `ssg`: WebP references, the development server's
    decisions, and the files `init` and `new` write.
- `app/` is the `rssg` program: command line, prompts, reading and writing
  files, image encoding, the HTTP server and the file watcher. It hands the
  library plain values and writes what the library returns.
- `tests/` runs the library on concrete inputs.

The public proof functions named `law_*` state what holds of the library as a
whole: ordering by date keeps every page and is stable, post lists, tag pages
and the feed follow that order, escaped text is inert and decoding undoes
escaping, a new page's front matter reads back, the weekday of a feed date
follows the calendar, related articles are the best-ranked ones, and others.
