<?xml version="1.0" encoding="UTF-8"?>
<interface>
  <requires lib="gtk" version="4.10"/>
  <object class="GtkWindow" id="window">
    <property name="title">Quick Preview</property>
    <property name="default-width">920</property>
    <property name="default-height">640</property>
    <property name="modal">true</property>
    <property name="destroy-with-parent">true</property>
    <property name="hide-on-close">true</property>
    <child>
      <object class="GtkBox">
        <property name="orientation">vertical</property>
        <property name="spacing">6</property>
        <property name="margin-start">8</property>
        <property name="margin-end">8</property>
        <property name="margin-top">8</property>
        <property name="margin-bottom">8</property>
        <style><class name="chat-frame"/><class name="file-preview-card"/></style>
        <child>
          <object class="GtkBox">
            <property name="spacing">8</property>
            <style><class name="file-preview-header"/></style>
            <child><object class="GtkLabel" id="title">
              <property name="label">Quick Preview</property>
              <property name="xalign">0</property>
              <property name="hexpand">true</property>
              <property name="ellipsize">end</property>
              <style><class name="file-preview-title"/></style>
            </object></child>
            <child><object class="GtkLabel" id="meta">
              <property name="xalign">1</property>
              <style><class name="file-preview-meta"/></style>
            </object></child>
            <child>
              <object class="GtkToggleButton" id="diff_toggle">
                <property name="tooltip-text">Show file diff sources</property>
                <style><class name="app-flat-button"/><class name="file-preview-diff-toggle"/></style>
                <child>
                  <object class="GtkBox">
                    <property name="spacing">5</property>
                    <child><object class="GtkImage">
                      <property name="icon-name">view-dual-symbolic</property>
                      <property name="pixel-size">14</property>
                    </object></child>
                    <child><object class="GtkLabel"><property name="label">Diff</property></object></child>
                  </object>
                </child>
              </object>
            </child>
            <child><object class="GtkButton" id="open_external">
              <property name="icon-name">folder-open-symbolic</property>
              <property name="tooltip-text">Open with default application</property>
              <style><class name="app-flat-button"/><class name="circular"/></style>
            </object></child>
          </object>
        </child>
        <child>
          <object class="GtkPaned">
            <property name="wide-handle">true</property>
            <property name="resize-start-child">true</property>
            <property name="resize-end-child">true</property>
            <property name="shrink-start-child">true</property>
            <property name="shrink-end-child">false</property>
            <property name="position">860</property>
            <style><class name="file-preview-split"/></style>
            <property name="start-child">
              <object class="GtkStack" id="preview_stack">
                <property name="hexpand">true</property>
                <property name="vexpand">true</property>
                <child><object class="GtkStackPage">
                  <property name="name">text</property>
                  <property name="child"><object class="GtkScrolledWindow" id="source_scroll">
                    <property name="hexpand">true</property>
                    <property name="vexpand">true</property>
                    <style><class name="file-preview-scroll"/></style>
                  </object></property>
                </object></child>
                <child><object class="GtkStackPage">
                  <property name="name">image</property>
                  <property name="child"><object class="GtkScrolledWindow">
                    <property name="hexpand">true</property>
                    <property name="vexpand">true</property>
                    <style><class name="file-preview-scroll"/></style>
                    <child><object class="GtkPicture" id="image">
                      <property name="can-shrink">true</property>
                      <property name="content-fit">contain</property>
                      <style><class name="file-preview-image"/></style>
                    </object></child>
                  </object></property>
                </object></child>
              </object>
            </property>
            <property name="end-child">
              <object class="GtkRevealer" id="diff_revealer">
                <property name="transition-type">slide-left</property>
                <property name="transition-duration">160</property>
                <property name="reveal-child">false</property>
                <property name="visible">false</property>
                <child>
                  <object class="GtkBox">
                    <property name="orientation">vertical</property>
                    <property name="spacing">8</property>
                    <property name="width-request">430</property>
                    <style><class name="file-preview-diff-panel"/></style>
                    <child><object class="GtkLabel">
                      <property name="label">Diff Explorer</property>
                      <property name="xalign">0</property>
                      <style><class name="file-preview-diff-title"/></style>
                    </object></child>
                    <child><object class="GtkLabel">
                      <property name="label">Compare this file against in-app checkpoints or git commits.</property>
                      <property name="xalign">0</property>
                      <property name="wrap">true</property>
                      <property name="wrap-mode">word-char</property>
                      <style><class name="file-preview-diff-subtitle"/></style>
                    </object></child>
                    <child><object class="GtkStackSwitcher">
                      <property name="stack">diff_source_stack</property>
                      <property name="halign">start</property>
                      <style><class name="file-preview-diff-switcher"/></style>
                    </object></child>
                    <child>
                      <object class="GtkStack" id="diff_source_stack">
                        <property name="transition-type">crossfade</property>
                        <child><object class="GtkStackPage">
                          <property name="name">checkpoints</property>
                          <property name="title">Checkpoints</property>
                          <property name="child"><object class="GtkScrolledWindow">
                            <property name="hscrollbar-policy">never</property>
                            <property name="min-content-height">150</property>
                            <style><class name="file-preview-diff-list-scroll"/></style>
                            <child><object class="GtkListBox" id="checkpoint_list">
                              <property name="selection-mode">single</property>
                              <style><class name="file-preview-diff-list"/></style>
                            </object></child>
                          </object></property>
                        </object></child>
                        <child><object class="GtkStackPage">
                          <property name="name">git</property>
                          <property name="title">Git</property>
                          <property name="child"><object class="GtkScrolledWindow">
                            <property name="hscrollbar-policy">never</property>
                            <property name="min-content-height">150</property>
                            <style><class name="file-preview-diff-list-scroll"/></style>
                            <child><object class="GtkListBox" id="git_list">
                              <property name="selection-mode">single</property>
                              <style><class name="file-preview-diff-list"/></style>
                            </object></child>
                          </object></property>
                        </object></child>
                      </object>
                    </child>
                    <child><object class="GtkLabel" id="diff_meta">
                      <property name="label">Pick an item to preview a diff.</property>
                      <property name="xalign">0</property>
                      <property name="wrap">true</property>
                      <property name="wrap-mode">word-char</property>
                      <style><class name="file-preview-diff-meta"/></style>
                    </object></child>
                    <child><object class="GtkScrolledWindow" id="diff_scroll">
                      <property name="hexpand">true</property>
                      <property name="vexpand">true</property>
                      <style><class name="file-preview-scroll"/></style>
                    </object></child>
                  </object>
                </child>
              </object>
            </property>
          </object>
        </child>
      </object>
    </child>
  </object>
</interface>
